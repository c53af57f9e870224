use pc_rl_core::error::PcError;
use pc_rl_core::linalg::{Entries, Grid, Letters, LinAlg, Positions, Whole};
use pc_rl_core::network_ops::{Networks, SelectionMode};
use pc_rl_core::networks::{self, Activation, LayerDef};
use pc_rl_core::pc_actor_critic::agent::DEFAULT_ROLLBACK_HARD_COOLDOWN;
use pc_rl_core::pc_actor_critic::config::{self, ActionSpace};
use pc_rl_core::pc_actor_critic::discounting;
use pc_rl_core::pc_actor_critic::episode::episode_loss;
use pc_rl_core::pc_actor_critic::ewma::{EwmaTracker, PlasticityState};
use pc_rl_core::pc_actor_critic::fisher::FisherState;
use pc_rl_core::pc_actor_critic::gradients;
use pc_rl_core::pc_actor_critic::hysteresis::HysteresisState;
use pc_rl_core::pc_actor_critic::learning::LearnStep;
use pc_rl_core::pc_actor_critic::persistence::SavedParts;
use pc_rl_core::pc_actor_critic::policy;
use pc_rl_core::pc_actor_critic::rehearsal::MAX_REPLAY_TD_ERROR_BITS;
use pc_rl_core::pc_actor_critic::replay::{Action, ReplayTransition};
use pc_rl_core::pc_actor_critic::scaling::LearnMode;
use pc_rl_core::pc_actor_critic::stepping::{check_mask, PreviousStep};
use pc_rl_core::pc_actor_critic::{agent, trajectory};
use pc_rl_core::scalar::Scalar;
use pc_rl_core::serializer::{
    cpu_to_mat, new_metadata, LayerWeights, MlpCriticWeights, PcActorWeights,
};
use rand::rngs::StdRng;
use rand::{Rng, SeedableRng};

/// Matrix of the backend, row-major.
#[derive(Clone, Debug, PartialEq)]
struct Mat {
    rows: usize,
    cols: usize,
    data: Vec<f64>,
}

impl Mat {
    fn get(&self, r: usize, c: usize) -> f64 {
        self.data[r * self.cols + c]
    }
}

/// Machine doubles with one fixed NaN.
#[derive(Clone, Debug)]
struct CpuLinAlg;

fn sc(x: f64) -> Scalar {
    Scalar::from_bits(if x.is_nan() { f64::NAN.to_bits() } else { x.to_bits() })
}

fn fl(x: Scalar) -> f64 {
    f64::from_bits(x.to_bits())
}

impl LinAlg for CpuLinAlg {
    type Vector = Vec<f64>;
    type Matrix = Mat;

    fn seq(_: Vec<f64>) -> Entries {
        unreachable!()
    }
    fn grid(_: Mat) -> Grid {
        unreachable!()
    }
    fn plus(_: Scalar, _: Scalar) -> Scalar {
        unreachable!()
    }
    fn minus(_: Scalar, _: Scalar) -> Scalar {
        unreachable!()
    }
    fn times(_: Scalar, _: Scalar) -> Scalar {
        unreachable!()
    }
    fn over(_: Scalar, _: Scalar) -> Scalar {
        unreachable!()
    }
    fn root(_: Scalar) -> Scalar {
        unreachable!()
    }
    fn exponential(_: Scalar) -> Scalar {
        unreachable!()
    }
    fn logarithm(_: Scalar) -> Scalar {
        unreachable!()
    }
    fn power(_: Scalar, _: Whole) -> Scalar {
        unreachable!()
    }
    fn count(_: Whole) -> Scalar {
        unreachable!()
    }
    fn ceiling(_: Scalar) -> u64 {
        unreachable!()
    }
    fn text(_: Scalar) -> Letters {
        unreachable!()
    }
    fn softmax(_: Entries, _: Positions) -> Entries {
        unreachable!()
    }
    fn slope(_: Entries, _: Activation) -> Entries {
        unreachable!()
    }
    fn product(_: Grid, _: Entries) -> Entries {
        unreachable!()
    }

    fn scalar_add(a: Scalar, b: Scalar) -> Scalar {
        sc(fl(a) + fl(b))
    }
    fn scalar_sub(a: Scalar, b: Scalar) -> Scalar {
        sc(fl(a) - fl(b))
    }
    fn scalar_mul(a: Scalar, b: Scalar) -> Scalar {
        sc(fl(a) * fl(b))
    }
    fn scalar_div(a: Scalar, b: Scalar) -> Scalar {
        sc(fl(a) / fl(b))
    }
    fn scalar_sqrt(a: Scalar) -> Scalar {
        sc(fl(a).sqrt())
    }
    fn scalar_exp(a: Scalar) -> Scalar {
        sc(fl(a).exp())
    }
    fn scalar_ln(a: Scalar) -> Scalar {
        sc(fl(a).ln())
    }
    fn scalar_powi(a: Scalar, n: usize) -> Scalar {
        sc(fl(a).powi(n as i32))
    }
    fn scalar_from_count(n: u64) -> Scalar {
        sc(n as f64)
    }
    fn scalar_ceil(a: Scalar) -> u64 {
        fl(a).ceil() as u64
    }
    fn scalar_text(a: Scalar) -> String {
        format!("{}", fl(a))
    }
    fn zeros_vec(&self, n: usize) -> Vec<f64> {
        vec![0.0; n]
    }
    fn zeros_mat(&self, rows: usize, cols: usize) -> Mat {
        Mat { rows, cols, data: vec![0.0; rows * cols] }
    }
    fn vec_clone(v: &Vec<f64>) -> Vec<f64> {
        v.clone()
    }
    fn mat_clone(m: &Mat) -> Mat {
        m.clone()
    }
    fn vec_len(&self, v: &Vec<f64>) -> usize {
        v.len()
    }
    fn vec_get(&self, v: &Vec<f64>, i: usize) -> Scalar {
        sc(v[i])
    }
    fn vec_set(&self, v: &mut Vec<f64>, i: usize, x: Scalar) {
        v[i] = fl(x);
    }
    fn vec_from_slice(&self, x: &[Scalar]) -> Vec<f64> {
        x.iter().map(|v| fl(*v)).collect()
    }
    fn vec_to_vec(&self, v: &Vec<f64>) -> Vec<Scalar> {
        v.iter().map(|x| sc(*x)).collect()
    }
    fn mat_rows(&self, m: &Mat) -> usize {
        m.rows
    }
    fn mat_cols(&self, m: &Mat) -> usize {
        m.cols
    }
    fn mat_get(&self, m: &Mat, r: usize, c: usize) -> Scalar {
        sc(m.data[r * m.cols + c])
    }
    fn mat_set(&self, m: &mut Mat, r: usize, c: usize, x: Scalar) {
        m.data[r * m.cols + c] = fl(x);
    }
    fn mat_transpose(&self, m: &Mat) -> Mat {
        let mut t = self.zeros_mat(m.cols, m.rows);
        for r in 0..m.rows {
            for c in 0..m.cols {
                t.data[c * m.rows + r] = m.data[r * m.cols + c];
            }
        }
        t
    }
    fn mat_vec_mul(&self, m: &Mat, v: &Vec<f64>) -> Vec<f64> {
        (0..m.rows).map(|r| (0..m.cols).map(|c| m.data[r * m.cols + c] * v[c]).sum()).collect()
    }
    fn vec_add(&self, a: &Vec<f64>, b: &Vec<f64>) -> Vec<f64> {
        a.iter().zip(b).map(|(x, y)| x + y).collect()
    }
    fn vec_scale(&self, a: &Vec<f64>, k: Scalar) -> Vec<f64> {
        a.iter().map(|x| x * fl(k)).collect()
    }
    fn vec_hadamard(&self, a: &Vec<f64>, b: &Vec<f64>) -> Vec<f64> {
        a.iter().zip(b).map(|(x, y)| x * y).collect()
    }
    fn clip_vec(&self, v: &mut Vec<f64>, bound: Scalar) {
        for x in v.iter_mut() {
            *x = x.clamp(-fl(bound), fl(bound));
        }
    }
    fn softmax_masked(&self, v: &Vec<f64>, valid: &[usize]) -> Vec<f64> {
        let mut out = vec![0.0; v.len()];
        let top = valid.iter().map(|i| v[*i]).fold(f64::NEG_INFINITY, f64::max);
        let sum: f64 = valid.iter().map(|i| (v[*i] - top).exp()).sum();
        for i in valid {
            out[*i] = (v[*i] - top).exp() / sum;
        }
        out
    }
    fn apply_derivative(&self, v: &Vec<f64>, activation: Activation) -> Vec<f64> {
        v.iter()
            .map(|y| match activation {
                Activation::Tanh => 1.0 - y * y,
                Activation::Relu => {
                    if *y > 0.0 {
                        1.0
                    } else {
                        0.0
                    }
                }
                Activation::Softsign => (1.0 - y.abs()) * (1.0 - y.abs()),
                Activation::Linear => 1.0,
            })
            .collect()
    }
}

/// The same operations on doubles.
impl CpuLinAlg {
    fn new() -> Self {
        CpuLinAlg
    }
    fn zeros_mat(&self, rows: usize, cols: usize) -> Mat {
        Mat { rows, cols, data: vec![0.0; rows * cols] }
    }
    fn vec_get(&self, v: &Vec<f64>, i: usize) -> f64 {
        v[i]
    }
    fn vec_set(&self, v: &mut Vec<f64>, i: usize, x: f64) {
        v[i] = x;
    }
    fn vec_from_slice(&self, x: &[f64]) -> Vec<f64> {
        x.to_vec()
    }
    fn vec_to_vec(&self, v: &Vec<f64>) -> Vec<f64> {
        v.clone()
    }
    fn mat_get(&self, m: &Mat, r: usize, c: usize) -> f64 {
        m.data[r * m.cols + c]
    }
    fn mat_set(&self, m: &mut Mat, r: usize, c: usize, x: f64) {
        m.data[r * m.cols + c] = x;
    }
    fn clip_vec(&self, v: &mut Vec<f64>, bound: f64) {
        LinAlg::clip_vec(self, v, sc(bound));
    }
}

/// Actor settings in doubles.
#[derive(Clone, Debug)]
struct PcActorConfig {
    input_size: usize,
    hidden_layers: Vec<LayerDef>,
    output_size: usize,
    output_activation: Activation,
    alpha: f64,
    tol: f64,
    min_steps: usize,
    max_steps: usize,
    lr_weights: f64,
    synchronous: bool,
    temperature: f64,
    local_lambda: f64,
    residual: bool,
    rezero_init: f64,
}

impl PcActorConfig {
    fn lib(&self) -> networks::PcActorConfig {
        networks::PcActorConfig {
            input_size: self.input_size,
            hidden_layers: self.hidden_layers.clone(),
            output_size: self.output_size,
            output_activation: self.output_activation,
            alpha: sc(self.alpha),
            tol: sc(self.tol),
            min_steps: self.min_steps,
            max_steps: self.max_steps,
            lr_weights: sc(self.lr_weights),
            synchronous: self.synchronous,
            temperature: sc(self.temperature),
            local_lambda: sc(self.local_lambda),
            residual: self.residual,
            rezero_init: sc(self.rezero_init),
        }
    }
}

/// Critic settings in doubles.
#[derive(Clone, Debug)]
struct MlpCriticConfig {
    input_size: usize,
    hidden_layers: Vec<LayerDef>,
    output_activation: Activation,
    lr: f64,
}

impl MlpCriticConfig {
    fn lib(&self) -> networks::MlpCriticConfig {
        networks::MlpCriticConfig {
            input_size: self.input_size,
            hidden_layers: self.hidden_layers.clone(),
            output_activation: self.output_activation,
            lr: sc(self.lr),
        }
    }
}

/// Agent settings in doubles.
#[derive(Clone, Debug)]
struct PcActorCriticConfig {
    actor: PcActorConfig,
    critic: MlpCriticConfig,
    gamma: f64,
    surprise_low: f64,
    surprise_high: f64,
    adaptive_surprise: bool,
    surprise_buffer_size: usize,
    entropy_coeff: f64,
    scale_floor: f64,
    scale_ceil: f64,
    actor_hysteresis: bool,
    actor_fast_window: usize,
    actor_slow_window: usize,
    actor_wake_fraction: f64,
    actor_sleep_fraction: f64,
    critic_hysteresis: bool,
    critic_fast_window: usize,
    critic_slow_window: usize,
    critic_wake_fraction: f64,
    critic_sleep_fraction: f64,
    actor_wakes_critic: bool,
    actor_wakes_critic_threshold: u64,
    critic_wakes_actor: bool,
    critic_wakes_actor_threshold: u64,
    consolidation_decay: f64,
    critic_consolidation_decay: f64,
    adaptive_consolidation: bool,
    consolidation_ema_beta: f64,
    consolidation_sigmoid_k: f64,
    consolidation_error_threshold: f64,
    ewc_lambda: f64,
    fisher_decay: f64,
    fisher_ema_beta: f64,
    logits_reversal: bool,
    td_steps: usize,
    gae_lambda: Option<f64>,
    distillation_lambda_polyak: f64,
    polyak_tau: f64,
    distillation_lambda_frozen: f64,
    replay_training_capacity: usize,
    replay_recent_capacity: usize,
    replay_positive_only: bool,
    replay_batch_size: usize,
    scale_floor_replay: f64,
    critic_floor_replay: f64,
    action_space: ActionSpace,
    policy_sigma: f64,
}

impl PcActorCriticConfig {
    fn lib(&self) -> config::PcActorCriticConfig {
        config::PcActorCriticConfig {
            actor: self.actor.lib(),
            critic: self.critic.lib(),
            gamma: sc(self.gamma),
            surprise_low: sc(self.surprise_low),
            surprise_high: sc(self.surprise_high),
            adaptive_surprise: self.adaptive_surprise,
            surprise_buffer_size: self.surprise_buffer_size,
            entropy_coeff: sc(self.entropy_coeff),
            scale_floor: sc(self.scale_floor),
            scale_ceil: sc(self.scale_ceil),
            actor_hysteresis: self.actor_hysteresis,
            actor_fast_window: self.actor_fast_window,
            actor_slow_window: self.actor_slow_window,
            actor_wake_fraction: sc(self.actor_wake_fraction),
            actor_sleep_fraction: sc(self.actor_sleep_fraction),
            critic_hysteresis: self.critic_hysteresis,
            critic_fast_window: self.critic_fast_window,
            critic_slow_window: self.critic_slow_window,
            critic_wake_fraction: sc(self.critic_wake_fraction),
            critic_sleep_fraction: sc(self.critic_sleep_fraction),
            actor_wakes_critic: self.actor_wakes_critic,
            actor_wakes_critic_threshold: self.actor_wakes_critic_threshold,
            critic_wakes_actor: self.critic_wakes_actor,
            critic_wakes_actor_threshold: self.critic_wakes_actor_threshold,
            consolidation_decay: sc(self.consolidation_decay),
            critic_consolidation_decay: sc(self.critic_consolidation_decay),
            adaptive_consolidation: self.adaptive_consolidation,
            consolidation_ema_beta: sc(self.consolidation_ema_beta),
            consolidation_sigmoid_k: sc(self.consolidation_sigmoid_k),
            consolidation_error_threshold: sc(self.consolidation_error_threshold),
            ewc_lambda: sc(self.ewc_lambda),
            fisher_decay: sc(self.fisher_decay),
            fisher_ema_beta: sc(self.fisher_ema_beta),
            logits_reversal: self.logits_reversal,
            td_steps: self.td_steps,
            gae_lambda: self.gae_lambda.map(sc),
            distillation_lambda_polyak: sc(self.distillation_lambda_polyak),
            polyak_tau: sc(self.polyak_tau),
            distillation_lambda_frozen: sc(self.distillation_lambda_frozen),
            replay_training_capacity: self.replay_training_capacity,
            replay_recent_capacity: self.replay_recent_capacity,
            replay_positive_only: self.replay_positive_only,
            replay_batch_size: self.replay_batch_size,
            scale_floor_replay: sc(self.scale_floor_replay),
            critic_floor_replay: sc(self.critic_floor_replay),
            action_space: self.action_space,
            policy_sigma: sc(self.policy_sigma),
        }
    }
}

type PcActor = networks::PcActor<CpuLinAlg>;
type MlpCritic = networks::MlpCritic<CpuLinAlg>;
type Layer = networks::Layer<CpuLinAlg>;
type InferResult = networks::InferResult<CpuLinAlg>;
type ActivationCache = trajectory::ActivationCache<CpuLinAlg>;

fn scalars(x: &[f64]) -> Vec<Scalar> {
    x.iter().map(|v| sc(*v)).collect()
}

fn doubles<'a>(x: impl IntoIterator<Item = &'a Scalar>) -> Vec<f64> {
    x.into_iter().map(|v| fl(*v)).collect()
}

fn activate(x: f64, a: Activation) -> f64 {
    match a {
        Activation::Tanh => x.tanh(),
        Activation::Relu => x.max(0.0),
        Activation::Softsign => x / (1.0 + x.abs()),
        Activation::Linear => x,
    }
}

fn random_layer(inputs: usize, outputs: usize, activation: Activation, rng: &mut StdRng) -> Layer {
    let limit = (6.0 / (inputs + outputs) as f64).sqrt();
    Layer {
        weights: Mat {
            rows: outputs,
            cols: inputs,
            data: (0..inputs * outputs).map(|_| rng.gen_range(-limit..limit)).collect(),
        },
        bias: vec![0.0; outputs],
        activation,
    }
}

fn layer_forward(l: &Layer, x: &[f64]) -> Vec<f64> {
    (0..l.weights.rows)
        .map(|r| {
            let z: f64 = (0..l.weights.cols).map(|c| l.weights.data[r * l.weights.cols + c] * x[c]).sum();
            activate(z + l.bias[r], l.activation)
        })
        .collect()
}

fn layer_update(l: &mut Layer, grad: &[f64], x: &[f64], rate: f64) {
    for r in 0..l.weights.rows {
        for c in 0..l.weights.cols {
            let w = &mut l.weights.data[r * l.weights.cols + c];
            *w = (*w - rate * grad[r] * x[c]).clamp(-5.0, 5.0);
        }
        l.bias[r] = (l.bias[r] - rate * grad[r]).clamp(-5.0, 5.0);
    }
}

fn new_actor(cfg: &networks::PcActorConfig, rng: &mut StdRng) -> PcActor {
    let mut layers = Vec::new();
    let mut rezero_alpha = Vec::new();
    let mut skip_projections = Vec::new();
    let mut skip_alpha = Vec::new();
    let mut inputs = cfg.input_size;
    for (i, h) in cfg.hidden_layers.iter().enumerate() {
        layers.push(random_layer(inputs, h.size, h.activation, rng));
        if cfg.residual && i > 0 {
            skip_alpha.push(Some(rezero_alpha.len()));
            rezero_alpha.push(cfg.rezero_init);
            skip_projections.push(if inputs == h.size {
                None
            } else {
                Some(random_layer(inputs, h.size, Activation::Linear, rng).weights)
            });
        } else {
            skip_alpha.push(None);
        }
        inputs = h.size;
    }
    layers.push(random_layer(inputs, cfg.output_size, cfg.output_activation, rng));
    networks::PcActor { layers, config: cfg.copy(), rezero_alpha, skip_projections, skip_alpha }
}

fn new_critic(cfg: &networks::MlpCriticConfig, rng: &mut StdRng) -> MlpCritic {
    let mut layers = Vec::new();
    let mut inputs = cfg.input_size;
    for h in &cfg.hidden_layers {
        layers.push(random_layer(inputs, h.size, h.activation, rng));
        inputs = h.size;
    }
    layers.push(random_layer(inputs, 1, cfg.output_activation, rng));
    networks::MlpCritic { layers, config: cfg.copy() }
}

fn transposed_product(m: &Mat, v: &[f64]) -> Vec<f64> {
    (0..m.cols).map(|c| (0..m.rows).map(|r| m.data[r * m.cols + c] * v[r]).sum()).collect()
}

fn run_infer(actor: &PcActor, input: &[f64]) -> InferResult {
    assert_eq!(input.len(), actor.config.input_size);
    let n = actor.layers.len() - 1;
    let mut x = input.to_vec();
    let mut hidden_states = Vec::new();
    let mut tanh_components = Vec::new();
    for i in 0..n {
        let out = layer_forward(&actor.layers[i], &x);
        match actor.skip_alpha[i] {
            Some(a) => {
                let carried = match &actor.skip_projections[a] {
                    Some(p) => (0..p.rows)
                        .map(|r| (0..p.cols).map(|c| p.data[r * p.cols + c] * x[c]).sum())
                        .collect(),
                    None => x.clone(),
                };
                let k = fl(actor.rezero_alpha[a]);
                x = out.iter().zip(&carried).map(|(o, c): (&f64, &f64)| k * o + c).collect();
                tanh_components.push(Some(out));
            }
            None => {
                x = out;
                tanh_components.push(None);
            }
        }
        hidden_states.push(x.clone());
    }
    let y_conv = layer_forward(&actor.layers[n], &x);
    let mut prediction_errors = Vec::new();
    let mut above = y_conv.clone();
    for i in (0..n).rev() {
        let guess = transposed_product(&actor.layers[i + 1].weights, &above);
        prediction_errors
            .push(hidden_states[i].iter().zip(&guess).map(|(h, g)| 0.1 * (h - g)).collect::<Vec<f64>>());
        above = hidden_states[i].clone();
    }
    let all: Vec<f64> = prediction_errors.iter().flatten().copied().collect();
    let surprise = (all.iter().map(|e| e * e).sum::<f64>() / all.len().max(1) as f64).sqrt();
    networks::InferResult {
        y_conv,
        latent_concat: hidden_states.iter().flatten().copied().collect(),
        hidden_states,
        prediction_errors,
        surprise_score: sc(surprise),
        steps_used: 1,
        converged: true,
        tanh_components,
    }
}

fn settle(actor: &PcActor, mut infer: InferResult) -> InferResult {
    let n = actor.layers.len() - 1;
    for step in 1..=actor.config.max_steps {
        infer.prediction_errors.clear();
        for i in (0..n).rev() {
            let above = if i + 1 == n { &infer.y_conv } else { &infer.hidden_states[i + 1] };
            let guess = transposed_product(&actor.layers[i + 1].weights, above);
            let error = guess
                .iter()
                .zip(&infer.hidden_states[i])
                .map(|(g, h)| activate(*g, actor.layers[i].activation) - h)
                .collect();
            infer.prediction_errors.push(error);
        }
        for (h, e) in infer.hidden_states.iter_mut().zip(infer.prediction_errors.iter().rev()) {
            for (x, d) in h.iter_mut().zip(e) {
                *x += fl(actor.config.alpha) * d;
            }
        }
        infer.y_conv = layer_forward(&actor.layers[n], &infer.hidden_states[n - 1]);
        let all: Vec<f64> = infer.prediction_errors.iter().flatten().copied().collect();
        let surprise = (all.iter().map(|e| e * e).sum::<f64>() / all.len() as f64).sqrt();
        infer.surprise_score = sc(surprise);
        infer.steps_used = step;
        if surprise < fl(actor.config.tol) && step >= actor.config.min_steps {
            break;
        }
    }
    infer.latent_concat = infer.hidden_states.iter().flatten().copied().collect();
    infer
}

fn update_actor(
    actor: &mut PcActor,
    delta: &[f64],
    infer: &InferResult,
    input: &[f64],
    scale: f64,
    decay: &[f64],
) {
    let n = actor.layers.len() - 1;
    let lr = fl(actor.config.lr_weights);
    let backend = CpuLinAlg::new();
    let mut grad = backend.vec_hadamard(
        &delta.to_vec(),
        &backend.apply_derivative(&infer.y_conv, actor.layers[n].activation),
    );
    backend.clip_vec(&mut grad, 5.0);
    let mut back = transposed_product(&actor.layers[n].weights, &grad);
    let below = if n == 0 { input.to_vec() } else { infer.hidden_states[n - 1].clone() };
    layer_update(&mut actor.layers[n], &grad, &below, lr * scale);
    for i in (0..n).rev() {
        let error = back.clone();
        let (scaled, out) = match actor.skip_alpha[i] {
            Some(a) => (
                error.iter().map(|e| e * fl(actor.rezero_alpha[a])).collect(),
                infer.tanh_components[i].clone().unwrap(),
            ),
            None => (error.clone(), infer.hidden_states[i].clone()),
        };
        let mut g =
            backend.vec_hadamard(&scaled, &backend.apply_derivative(&out, actor.layers[i].activation));
        backend.clip_vec(&mut g, 5.0);
        back = transposed_product(&actor.layers[i].weights, &g);
        if let Some(a) = actor.skip_alpha[i] {
            let along = match &actor.skip_projections[a] {
                Some(p) => transposed_product(p, &error),
                None => error.clone(),
            };
            back = backend.vec_add(&back, &along);
            let slope: f64 = error.iter().zip(&out).map(|(e, o)| e * o).sum();
            actor.rezero_alpha[a] = sc(fl(actor.rezero_alpha[a]) - lr * scale * slope);
        }
        let below = if i == 0 { input.to_vec() } else { infer.hidden_states[i - 1].clone() };
        let rate = lr * scale * if decay.is_empty() { 1.0 } else { decay[i] };
        layer_update(&mut actor.layers[i], &g, &below, rate);
    }
}

fn critic_outputs(critic: &MlpCritic, input: &[f64]) -> Vec<Vec<f64>> {
    let mut outs = vec![input.to_vec()];
    for l in &critic.layers {
        let x = layer_forward(l, outs.last().unwrap());
        outs.push(x);
    }
    outs
}

fn critic_value(critic: &MlpCritic, input: &[f64]) -> f64 {
    critic_outputs(critic, input).last().unwrap()[0]
}

fn update_critic(critic: &mut MlpCritic, input: &[f64], target: f64, scale: f64, decay: &[f64]) -> f64 {
    let outs = critic_outputs(critic, input);
    let n = critic.layers.len();
    let lr = fl(critic.config.lr);
    let miss = outs[n][0] - target;
    let backend = CpuLinAlg::new();
    let mut error = vec![2.0 * miss];
    for i in (0..n).rev() {
        let mut g = backend
            .vec_hadamard(&error, &backend.apply_derivative(&outs[i + 1], critic.layers[i].activation));
        backend.clip_vec(&mut g, 5.0);
        error = transposed_product(&critic.layers[i].weights, &g);
        let rate = lr * scale * if i + 1 < n && !decay.is_empty() { decay[i] } else { 1.0 };
        layer_update(&mut critic.layers[i], &g, &outs[i], rate);
    }
    miss * miss
}

/// Child layers between those of the parents, where all three have the same shape.
fn mix_layers(child: &mut [Layer], a: &[Layer], b: &[Layer], alpha: f64) {
    for ((c, x), y) in child.iter_mut().zip(a).zip(b) {
        if c.weights.data.len() == x.weights.data.len() && x.weights.data.len() == y.weights.data.len() {
            for (k, w) in c.weights.data.iter_mut().enumerate() {
                *w = alpha * x.weights.data[k] + (1.0 - alpha) * y.weights.data[k];
            }
            for (k, w) in c.bias.iter_mut().enumerate() {
                *w = alpha * x.bias[k] + (1.0 - alpha) * y.bias[k];
            }
        }
    }
}

fn select_action(actor: &PcActor, y: &[f64], valid: &[usize], mode: SelectionMode, rng: &mut StdRng) -> usize {
    assert!(!valid.is_empty());
    if mode == SelectionMode::Play {
        return *valid.iter().max_by(|a, b| y[**a].partial_cmp(&y[**b]).unwrap()).unwrap();
    }
    let t = fl(actor.config.temperature);
    let scaled: Vec<f64> = y.iter().map(|v| v / t).collect();
    let pi = CpuLinAlg::new().softmax_masked(&scaled, valid);
    let mut x: f64 = rng.gen();
    for i in valid {
        x -= pi[*i];
        if x < 0.0 {
            return *i;
        }
    }
    *valid.last().unwrap()
}

fn copy_critic(c: &MlpCritic) -> MlpCritic {
    networks::MlpCritic { layers: networks::copy_layers(&c.layers), config: c.config.copy() }
}

fn load_layers(layers: &mut [Layer], saved: &[LayerWeights]) -> Result<(), PcError> {
    if layers.len() != saved.len() {
        return Err(PcError::DimensionMismatch {
            expected: layers.len(),
            got: saved.len(),
            context: "saved layers",
        });
    }
    for (l, s) in layers.iter_mut().zip(saved) {
        l.weights = cpu_to_mat(&CpuLinAlg::new(), &s.weights);
        l.bias = doubles(&s.bias);
    }
    Ok(())
}

/// Plain networks, with or without hidden layers that settle.
struct Plain {
    settling: bool,
}

/// Feed-forward networks.
#[allow(non_upper_case_globals)]
const Rig: Plain = Plain { settling: false };

/// Networks whose hidden layers settle between what comes from below and from above.
#[allow(non_upper_case_globals)]
const Settling: Plain = Plain { settling: true };

impl Networks<CpuLinAlg> for Plain {
    fn build_actor(
        &self,
        _: &CpuLinAlg,
        config: &networks::PcActorConfig,
        rng: &StdRng,
    ) -> Result<(PcActor, StdRng), PcError> {
        let mut rng = rng.clone();
        Ok((new_actor(config, &mut rng), rng))
    }

    fn build_critic(
        &self,
        _: &CpuLinAlg,
        config: &networks::MlpCriticConfig,
        rng: &StdRng,
    ) -> Result<(MlpCritic, StdRng), PcError> {
        let mut rng = rng.clone();
        Ok((new_critic(config, &mut rng), rng))
    }

    fn load_actor(
        &self,
        _: &CpuLinAlg,
        config: &networks::PcActorConfig,
        weights: &PcActorWeights,
    ) -> Result<PcActor, PcError> {
        let mut actor = new_actor(config, &mut StdRng::seed_from_u64(0));
        load_layers(&mut actor.layers, &weights.layers)?;
        actor.rezero_alpha = weights.rezero_alpha.clone();
        actor.skip_projections = weights
            .skip_projections
            .iter()
            .map(|p| p.as_ref().map(|m| cpu_to_mat(&CpuLinAlg::new(), m)))
            .collect();
        Ok(actor)
    }

    fn load_critic(
        &self,
        _: &CpuLinAlg,
        config: &networks::MlpCriticConfig,
        weights: &MlpCriticWeights,
    ) -> Result<MlpCritic, PcError> {
        let mut critic = new_critic(config, &mut StdRng::seed_from_u64(0));
        load_layers(&mut critic.layers, &weights.layers)?;
        Ok(critic)
    }

    fn infer(&self, _: &CpuLinAlg, actor: &PcActor, input: &[Scalar]) -> InferResult {
        let infer = run_infer(actor, &doubles(input));
        if self.settling {
            settle(actor, infer)
        } else {
            infer
        }
    }

    fn select_action(
        &self,
        _: &CpuLinAlg,
        actor: &PcActor,
        output: &Vec<f64>,
        open: &[usize],
        mode: SelectionMode,
        rng: &StdRng,
    ) -> (usize, StdRng) {
        let mut rng = rng.clone();
        let action = select_action(actor, output, open, mode, &mut rng);
        (action, rng)
    }

    fn move_actor(
        &self,
        _: &CpuLinAlg,
        actor: &PcActor,
        delta: &[Scalar],
        infer: &InferResult,
        input: &[Scalar],
        scale: Scalar,
        decay: &[Scalar],
    ) -> PcActor {
        let mut moved = actor.copy();
        update_actor(&mut moved, &doubles(delta), infer, &doubles(input), fl(scale), &doubles(decay));
        moved
    }

    fn value(&self, _: &CpuLinAlg, critic: &MlpCritic, input: &[Scalar]) -> Scalar {
        sc(critic_value(critic, &doubles(input)))
    }

    fn fit_critic(
        &self,
        _: &CpuLinAlg,
        critic: &MlpCritic,
        input: &[Scalar],
        target: Scalar,
    ) -> (MlpCritic, Scalar) {
        let mut moved = copy_critic(critic);
        let loss = update_critic(&mut moved, &doubles(input), fl(target), 1.0, &[]);
        (moved, sc(loss))
    }

    fn move_critic(
        &self,
        _: &CpuLinAlg,
        critic: &MlpCritic,
        input: &[Scalar],
        target: Scalar,
        scale: Scalar,
        decay: &[Scalar],
    ) -> (MlpCritic, Scalar) {
        let mut moved = copy_critic(critic);
        let loss =
            update_critic(&mut moved, &doubles(input), fl(target), fl(scale), &doubles(decay));
        (moved, sc(loss))
    }

    fn cross_actors(
        &self,
        _: &CpuLinAlg,
        a: &PcActor,
        b: &PcActor,
        _: &Vec<Mat>,
        _: &Vec<Mat>,
        alpha: Scalar,
        config: &networks::PcActorConfig,
        rng: &StdRng,
    ) -> Result<(PcActor, StdRng), PcError> {
        let mut rng = rng.clone();
        let mut child = new_actor(config, &mut rng);
        mix_layers(&mut child.layers, &a.layers, &b.layers, fl(alpha));
        Ok((child, rng))
    }

    fn cross_critics(
        &self,
        _: &CpuLinAlg,
        a: &MlpCritic,
        b: &MlpCritic,
        _: &Vec<Mat>,
        _: &Vec<Mat>,
        alpha: Scalar,
        config: &networks::MlpCriticConfig,
        rng: &StdRng,
    ) -> Result<(MlpCritic, StdRng), PcError> {
        let mut rng = rng.clone();
        let mut child = new_critic(config, &mut rng);
        mix_layers(&mut child.layers, &a.layers, &b.layers, fl(alpha));
        Ok((child, rng))
    }
}

/// One step of an episode in doubles.
struct TrajectoryStep {
    input: Vec<f64>,
    latent_concat: Vec<f64>,
    y_conv: Vec<f64>,
    hidden_states: Vec<Vec<f64>>,
    prediction_errors: Vec<Vec<f64>>,
    tanh_components: Vec<Option<Vec<f64>>>,
    action: usize,
    valid_actions: Vec<usize>,
    reward: f64,
    surprise_score: Scalar,
    steps_used: usize,
}

/// An agent with plain feed-forward networks, driven in doubles.
struct PcActorCritic {
    lib: agent::PcActorCritic<CpuLinAlg>,
    config: PcActorCriticConfig,
}

impl std::fmt::Debug for PcActorCritic {
    fn fmt(&self, out: &mut std::fmt::Formatter<'_>) -> std::fmt::Result {
        out.write_str("PcActorCritic")
    }
}

impl std::ops::Deref for PcActorCritic {
    type Target = agent::PcActorCritic<CpuLinAlg>;
    fn deref(&self) -> &Self::Target {
        &self.lib
    }
}

impl std::ops::DerefMut for PcActorCritic {
    fn deref_mut(&mut self) -> &mut Self::Target {
        &mut self.lib
    }
}

impl PcActorCritic {
    fn new(backend: CpuLinAlg, config: PcActorCriticConfig, seed: u64) -> Result<Self, PcError> {
        let lib = agent::PcActorCritic::new(&Rig, backend, config.lib(), seed)?;
        Ok(PcActorCritic { lib, config })
    }

    fn crossover(
        a: &PcActorCritic,
        b: &PcActorCritic,
        actor_cache_a: &ActivationCache,
        actor_cache_b: &ActivationCache,
        critic_cache_a: &ActivationCache,
        critic_cache_b: &ActivationCache,
        alpha: f64,
        child: PcActorCriticConfig,
        seed: u64,
    ) -> Result<Self, PcError> {
        let lib = agent::PcActorCritic::crossover(
            &Rig,
            &a.lib,
            &b.lib,
            actor_cache_a,
            actor_cache_b,
            critic_cache_a,
            critic_cache_b,
            sc(alpha),
            child.lib(),
            seed,
        )?;
        Ok(PcActorCritic { lib, config: child })
    }

    fn infer(&self, input: &[f64]) -> InferResult {
        self.lib.infer(&Rig, &scalars(input))
    }

    fn act(&mut self, input: &[f64], valid: &[usize], mode: SelectionMode) -> (usize, InferResult) {
        self.lib.act(&Rig, &scalars(input), valid, mode)
    }

    fn learn_continuous_inner(&mut self, step: &LearnStep<'_, CpuLinAlg>) -> Result<f64, PcError> {
        self.lib.learn_continuous_inner(&Rig, step).map(fl)
    }

    fn learn_continuous(
        &mut self,
        input: &[f64],
        infer: &InferResult,
        action: usize,
        valid: &[usize],
        reward: f64,
        next_input: &[f64],
        next_infer: &InferResult,
        terminal: bool,
    ) -> f64 {
        fl(self.lib.learn_continuous(
            &Rig,
            &scalars(input),
            infer,
            action,
            valid,
            sc(reward),
            &scalars(next_input),
            next_infer,
            terminal,
        ))
    }

    fn learn(&mut self, steps: &[TrajectoryStep]) -> f64 {
        let trajectory: Vec<trajectory::TrajectoryStep<CpuLinAlg>> = steps
            .iter()
            .map(|t| trajectory::TrajectoryStep {
                input: t.input.clone(),
                latent_concat: t.latent_concat.clone(),
                y_conv: t.y_conv.clone(),
                hidden_states: t.hidden_states.clone(),
                prediction_errors: t.prediction_errors.clone(),
                tanh_components: t.tanh_components.clone(),
                action: t.action,
                valid_actions: t.valid_actions.clone(),
                reward: sc(t.reward),
                surprise_score: t.surprise_score,
                steps_used: t.steps_used,
            })
            .collect();
        fl(self.lib.learn(&Rig, &trajectory))
    }

    fn step(&mut self, state: &[f64], reward: f64, terminal: bool) -> usize {
        assert!(self.lib.can_step());
        self.lib.step(&Rig, &scalars(state), sc(reward), terminal)
    }

    fn step_masked(
        &mut self,
        state: &[f64],
        valid: &[usize],
        reward: f64,
        terminal: bool,
    ) -> Result<usize, PcError> {
        assert!(self.lib.can_step());
        self.lib.step_masked(&Rig, &scalars(state), valid, sc(reward), terminal)
    }

    fn replay_learn(&mut self, batch_size: usize) -> Result<(), PcError> {
        self.lib.replay_learn(&Rig, batch_size)
    }

    fn apply_config(&mut self, config: PcActorCriticConfig) -> Result<(), PcError> {
        self.lib.apply_config(config.lib())?;
        self.config = config;
        Ok(())
    }

    fn validate_topology_match(&self, config: &PcActorCriticConfig) -> Result<(), PcError> {
        self.lib.validate_topology_match(&config.lib())
    }

    fn surprise_scale(&self, x: f64) -> f64 {
        fl(self.lib.surprise_scale(sc(x)))
    }

    fn critic_surprise_scale(&self, x: f64) -> f64 {
        fl(self.lib.critic_surprise_scale(sc(x)))
    }

    fn effective_actor_scale(&self, x: f64) -> f64 {
        fl(self.lib.effective_actor_scale(sc(x)))
    }

    fn effective_actor_decay(&self) -> Vec<f64> {
        doubles(&self.lib.effective_actor_decay())
    }

    fn push_surprise(&mut self, x: f64) {
        self.lib.push_surprise(sc(x));
    }

    fn compute_decay_factors(config: &PcActorCriticConfig) -> (Vec<f64>, Vec<f64>, Vec<f64>) {
        let (a, c, e) = agent::PcActorCritic::<CpuLinAlg>::compute_decay_factors(&config.lib());
        (doubles(&a), doubles(&c), doubles(&e))
    }

    fn compute_kl_polyak_gradient(&self, state: &[f64], y: &[f64], valid: &[usize]) -> Vec<f64> {
        self.kl_gradient(self.lib.polyak_target.as_ref().unwrap(), state, y, valid)
    }

    fn compute_kl_frozen_gradient(&self, state: &[f64], y: &[f64], valid: &[usize]) -> Vec<f64> {
        self.kl_gradient(self.lib.frozen_champion.as_ref().unwrap(), state, y, valid)
    }

    fn kl_gradient(&self, target: &PcActor, state: &[f64], y: &[f64], valid: &[usize]) -> Vec<f64> {
        let logits = run_infer(target, state).y_conv;
        doubles(&policy::compute_kl_gradient::<CpuLinAlg>(
            &scalars(y),
            &scalars(&logits),
            valid,
            self.lib.actor.config.temperature,
        ))
    }

    fn trace(&self) -> Vec<f64> {
        doubles(&self.lib.actor_trace)
    }

    fn actor_decays(&self) -> Vec<f64> {
        doubles(&self.lib.actor_decay_factors)
    }

    fn critic_decays(&self) -> Vec<f64> {
        doubles(&self.lib.critic_decay_factors)
    }

    fn layer_errors(&self) -> Vec<f64> {
        doubles(&self.lib.layer_error_ema)
    }

    fn surprises(&self) -> Vec<f64> {
        doubles(&self.lib.surprise_buffer)
    }

    fn td_errors(&self) -> Vec<f64> {
        doubles(&self.lib.td_error_buffer)
    }

    fn process_hysteresis(&mut self, a: f64, c: f64) {
        self.lib.process_hysteresis(sc(a), sc(c));
    }
}

/// What an error says.
trait Said {
    fn to_string(&self) -> String;
}

impl Said for PcError {
    fn to_string(&self) -> String {
        match self {
            PcError::ConfigValidation(m) => m.clone(),
            PcError::DimensionMismatch { expected, got, context } => {
                format!("{context}: expected {expected}, got {got}")
            }
        }
    }
}

/// Networks that run in doubles.
trait Runs {
    fn infer(&self, input: &[f64]) -> InferResult;
}

impl Runs for PcActor {
    fn infer(&self, input: &[f64]) -> InferResult {
        run_infer(self, input)
    }
}

/// Critics that run in doubles.
trait Values {
    fn forward(&self, input: &[f64]) -> f64;
    fn forward_with_hidden(&self, input: &[f64]) -> (f64, Vec<Vec<f64>>);
}

impl Values for MlpCritic {
    fn forward(&self, input: &[f64]) -> f64 {
        critic_value(self, input)
    }
    fn forward_with_hidden(&self, input: &[f64]) -> (f64, Vec<Vec<f64>>) {
        let outs = critic_outputs(self, input);
        (outs[outs.len() - 1][0], outs[1..outs.len() - 1].to_vec())
    }
}

fn compute_n_step_reward(gamma: f64, rewards: &[f64]) -> f64 {
    fl(discounting::compute_n_step_reward::<CpuLinAlg>(sc(gamma), &scalars(rewards)))
}

fn from_snapshot(
    state: PlasticityState,
    fast_value: f64,
    fast_k: u64,
    fast_window: usize,
    slow_value: f64,
    slow_k: u64,
    slow_window: usize,
    wake_fraction: f64,
    sleep_fraction: f64,
    min_initial_plastic: u64,
) -> HysteresisState {
    HysteresisState {
        fast: EwmaTracker { value: sc(fast_value), k: fast_k, window: fast_window },
        slow: EwmaTracker { value: sc(slow_value), k: slow_k, window: slow_window },
        state,
        wake_fraction: sc(wake_fraction),
        sleep_fraction: sc(sleep_fraction),
        min_initial_plastic,
    }
}

const MAX_REPLAY_TD_ERROR: f64 = f64::from_bits(MAX_REPLAY_TD_ERROR_BITS);

fn default_config() -> PcActorCriticConfig {
    PcActorCriticConfig {
        actor: PcActorConfig {
            input_size: 9,
            hidden_layers: vec![LayerDef {
                size: 18,
                activation: Activation::Tanh,
            }],
            output_size: 9,
            output_activation: Activation::Tanh,
            alpha: 0.1,
            tol: 0.01,
            min_steps: 1,
            max_steps: 20,
            lr_weights: 0.01,
            synchronous: true,
            temperature: 1.0,
            local_lambda: 1.0,
            residual: false,
            rezero_init: 0.001,
        },
        critic: MlpCriticConfig {
            input_size: 27,
            hidden_layers: vec![LayerDef {
                size: 36,
                activation: Activation::Tanh,
            }],
            output_activation: Activation::Linear,
            lr: 0.005,
        },
        gamma: 0.95,
        surprise_low: 0.02,
        surprise_high: 0.15,
        adaptive_surprise: false,
        surprise_buffer_size: 100,
        entropy_coeff: 0.01,
        scale_floor: 0.1,
        scale_ceil: 2.0,
        actor_hysteresis: false,
        actor_fast_window: 20,
        actor_slow_window: 100,
        actor_wake_fraction: 0.5,
        actor_sleep_fraction: 0.3,
        critic_hysteresis: false,
        critic_fast_window: 20,
        critic_slow_window: 100,
        critic_wake_fraction: 0.5,
        critic_sleep_fraction: 0.3,
        actor_wakes_critic: true,
        actor_wakes_critic_threshold: 1000,
        critic_wakes_actor: true,
        critic_wakes_actor_threshold: 1000,
        consolidation_decay: 1.0,
        critic_consolidation_decay: 1.0,
        adaptive_consolidation: false,
        consolidation_ema_beta: 0.99,
        consolidation_sigmoid_k: 10.0,
        consolidation_error_threshold: 0.05,
        ewc_lambda: 0.0,
        fisher_decay: 0.9,
        fisher_ema_beta: 0.99,
        logits_reversal: false,
        td_steps: 0,
        gae_lambda: None,
        distillation_lambda_polyak: 0.0,
        polyak_tau: 0.005,
        distillation_lambda_frozen: 0.0,
        replay_training_capacity: 0,
        replay_recent_capacity: 0,
        replay_positive_only: true,
        replay_batch_size: 64,
        scale_floor_replay: -1.0,
        critic_floor_replay: -1.0,
        action_space: ActionSpace::Discrete,
        policy_sigma: 0.1,
    }
}

fn make_agent() -> PcActorCritic {
    let agent: PcActorCritic =
        PcActorCritic::new(CpuLinAlg::new(), default_config(), 42).unwrap();
    agent
}

fn make_cross_wake_test_agent(
    actor_wakes_critic: bool,
    actor_wakes_critic_threshold: u64,
    critic_wakes_actor: bool,
    critic_wakes_actor_threshold: u64,
) -> PcActorCritic {
    let mut cfg = default_config();
    cfg.actor_hysteresis = true;
    cfg.critic_hysteresis = true;
    cfg.actor_wakes_critic = actor_wakes_critic;
    cfg.actor_wakes_critic_threshold = actor_wakes_critic_threshold;
    cfg.critic_wakes_actor = critic_wakes_actor;
    cfg.critic_wakes_actor_threshold = critic_wakes_actor_threshold;
    PcActorCritic::new(CpuLinAlg::new(), cfg, 42).unwrap()
}

fn make_trajectory(agent: &mut PcActorCritic) -> Vec<TrajectoryStep> {
    let input = vec![1.0, -1.0, 0.0, 0.5, -0.5, 1.0, -1.0, 0.0, 0.5];
    let valid = vec![2, 7];
    let (action, infer) = agent.act(&input, &valid, SelectionMode::Training);
    vec![TrajectoryStep {
        input,
        latent_concat: infer.latent_concat,
        y_conv: infer.y_conv,
        hidden_states: infer.hidden_states,
        prediction_errors: infer.prediction_errors,
        tanh_components: infer.tanh_components,
        action,
        valid_actions: valid,
        reward: 1.0,
        surprise_score: infer.surprise_score,
        steps_used: infer.steps_used,
    }]
}

fn build_caches_for_agent(
    agent: &mut PcActorCritic,
    batch_size: usize,
) -> (ActivationCache, ActivationCache) {
    let num_actor_hidden = agent.config.actor.hidden_layers.len();
    let num_critic_hidden = agent.config.critic.hidden_layers.len();
    let mut actor_cache: ActivationCache = ActivationCache::new(num_actor_hidden);
    let mut critic_cache: ActivationCache = ActivationCache::new(num_critic_hidden);
    let valid: Vec<usize> = (0..agent.config.actor.output_size).collect();
    for i in 0..batch_size {
        let input: Vec<f64> = (0..agent.config.actor.input_size)
            .map(|j| ((i * 9 + j) as f64 * 0.1).sin())
            .collect();
        let (_, infer) = agent.act(&input, &valid, SelectionMode::Training);
        actor_cache.record(&infer.hidden_states);
        let mut critic_input = input;
        critic_input.extend_from_slice(&infer.latent_concat);
        let (_value, critic_hidden) = agent.critic.forward_with_hidden(&critic_input);
        critic_cache.record(&critic_hidden);
    }
    (actor_cache, critic_cache)
}

fn collect_all_weights(agent: &PcActorCritic) -> Vec<f64> {
    let mut weights = Vec::new();
    for layer in &agent.actor.layers {
        weights.extend_from_slice(&layer.weights.data);
        weights.extend_from_slice(&layer.bias);
    }
    for layer in &agent.critic.layers {
        weights.extend_from_slice(&layer.weights.data);
        weights.extend_from_slice(&layer.bias);
    }
    weights
}

fn config_with_scale(floor: f64, ceil: f64) -> PcActorCriticConfig {
    let mut cfg = default_config();
    cfg.scale_floor = floor;
    cfg.scale_ceil = ceil;
    cfg
}

fn setup_for_wake(hyst: &mut HysteresisState) {
    hyst.state = PlasticityState::Frozen;
    hyst.slow.value = sc(0.05);
    hyst.slow.k = 200;
    hyst.fast.value = sc(0.06);
    hyst.fast.k = 200;
}

fn three_layer_config() -> PcActorCriticConfig {
    PcActorCriticConfig {
        actor: PcActorConfig {
            input_size: 9,
            hidden_layers: vec![
                LayerDef {
                    size: 12,
                    activation: Activation::Tanh,
                },
                LayerDef {
                    size: 12,
                    activation: Activation::Tanh,
                },
                LayerDef {
                    size: 8,
                    activation: Activation::Tanh,
                },
            ],
            output_size: 9,
            output_activation: Activation::Tanh,
            alpha: 0.1,
            tol: 0.01,
            min_steps: 1,
            max_steps: 20,
            lr_weights: 0.01,
            synchronous: true,
            temperature: 1.0,
            local_lambda: 1.0,
            residual: false,
            rezero_init: 0.001,
        },
        critic: MlpCriticConfig {
            input_size: 41,
            hidden_layers: vec![
                LayerDef {
                    size: 20,
                    activation: Activation::Tanh,
                },
                LayerDef {
                    size: 16,
                    activation: Activation::Tanh,
                },
            ],
            output_activation: Activation::Linear,
            lr: 0.005,
        },
        gamma: 0.95,
        surprise_low: 0.02,
        surprise_high: 0.15,
        adaptive_surprise: false,
        surprise_buffer_size: 100,
        entropy_coeff: 0.01,
        scale_floor: 0.1,
        scale_ceil: 2.0,
        actor_hysteresis: false,
        actor_fast_window: 20,
        actor_slow_window: 100,
        actor_wake_fraction: 0.5,
        actor_sleep_fraction: 0.3,
        critic_hysteresis: false,
        critic_fast_window: 20,
        critic_slow_window: 100,
        critic_wake_fraction: 0.5,
        critic_sleep_fraction: 0.3,
        actor_wakes_critic: true,
        actor_wakes_critic_threshold: 1000,
        critic_wakes_actor: true,
        critic_wakes_actor_threshold: 1000,
        consolidation_decay: 1.0,
        critic_consolidation_decay: 1.0,
        adaptive_consolidation: false,
        consolidation_ema_beta: 0.99,
        consolidation_sigmoid_k: 10.0,
        consolidation_error_threshold: 0.05,
        ewc_lambda: 0.0,
        fisher_decay: 0.9,
        fisher_ema_beta: 0.99,
        logits_reversal: false,
        td_steps: 0,
        gae_lambda: None,
        distillation_lambda_polyak: 0.0,
        polyak_tau: 0.005,
        distillation_lambda_frozen: 0.0,
        replay_training_capacity: 0,
        replay_recent_capacity: 0,
        replay_positive_only: true,
        replay_batch_size: 64,
        scale_floor_replay: -1.0,
        critic_floor_replay: -1.0,
        action_space: ActionSpace::Discrete,
        policy_sigma: 0.1,
    }
}

fn ewc_config() -> PcActorCriticConfig {
    PcActorCriticConfig {
        ewc_lambda: 1.0,
        fisher_decay: 0.9,
        fisher_ema_beta: 0.99,
        logits_reversal: false,
        actor_hysteresis: true,
        actor_fast_window: 5,
        actor_slow_window: 20,
        actor_wake_fraction: 0.5,
        actor_sleep_fraction: 0.3,
        critic_hysteresis: true,
        critic_fast_window: 5,
        critic_slow_window: 20,
        critic_wake_fraction: 0.5,
        critic_sleep_fraction: 0.3,
        ..default_config()
    }
}

fn compute_kl_from_logits(
    live_logits: &[f64],
    target_logits: &[f64],
    valid: &[usize],
    temp: f64,
) -> f64 {
    let live_scaled: Vec<f64> = valid.iter().map(|&i| live_logits[i] / temp).collect();
    let target_scaled: Vec<f64> = valid.iter().map(|&i| target_logits[i] / temp).collect();

    let max_l = live_scaled
        .iter()
        .cloned()
        .fold(f64::NEG_INFINITY, f64::max);
    let max_t = target_scaled
        .iter()
        .cloned()
        .fold(f64::NEG_INFINITY, f64::max);

    let lse_l = live_scaled
        .iter()
        .map(|&x| (x - max_l).exp())
        .sum::<f64>()
        .ln()
        + max_l;
    let lse_t = target_scaled
        .iter()
        .map(|&x| (x - max_t).exp())
        .sum::<f64>()
        .ln()
        + max_t;

    let mut kl = 0.0;
    for (&lv, &tv) in live_scaled.iter().zip(target_scaled.iter()) {
        let log_p = lv - lse_l;
        let log_q = tv - lse_t;
        let p = log_p.exp();
        kl += p * (log_p - log_q);
    }
    kl.max(0.0)
}

fn compute_kl_divergence(live_logits: &[f64], target_logits: &[f64], valid: &[usize]) -> f64 {
    let max_live = valid
        .iter()
        .map(|&i| live_logits[i])
        .fold(f64::NEG_INFINITY, f64::max);
    let max_target = valid
        .iter()
        .map(|&i| target_logits[i])
        .fold(f64::NEG_INFINITY, f64::max);

    let lse_live: f64 = valid
        .iter()
        .map(|&i| (live_logits[i] - max_live).exp())
        .sum::<f64>()
        .ln()
        + max_live;
    let lse_target: f64 = valid
        .iter()
        .map(|&i| (target_logits[i] - max_target).exp())
        .sum::<f64>()
        .ln()
        + max_target;

    let mut kl = 0.0;
    for &i in valid {
        let log_p = live_logits[i] - lse_live;
        let log_q = target_logits[i] - lse_target;
        let p = log_p.exp();
        kl += p * (log_p - log_q);
    }
    kl.max(0.0)
}

fn l2_delta(a: &[f64], b: &[f64]) -> f64 {
    a.iter()
        .zip(b.iter())
        .map(|(x, y)| (x - y).powi(2))
        .sum::<f64>()
        .sqrt()
}

fn cosine_similarity(a: &[f64], b: &[f64]) -> f64 {
    assert_eq!(a.len(), b.len(), "cosine_similarity: length mismatch");
    let dot: f64 = a.iter().zip(b.iter()).map(|(x, y)| x * y).sum();
    let na: f64 = a.iter().map(|x| x * x).sum::<f64>().sqrt();
    let nb: f64 = b.iter().map(|x| x * x).sum::<f64>().sqrt();
    if na == 0.0 || nb == 0.0 {
        return 0.0;
    }
    dot / (na * nb)
}

fn populate_replay_buffer(agent: &mut PcActorCritic, n: usize) {
    let buf = agent
        .replay_buffer
        .as_mut()
        .expect("populate_replay_buffer: agent must have replay_buffer configured");
    for i in 0..n {
        let marker = (i as f64) / (n as f64);
        buf.push(make_replay_transition(marker, 1.0));
    }
}

fn fisher_any_non_finite(agent: &PcActorCritic) -> bool {
    let backend = &CpuLinAlg::new();
    let check_mat = |m: &<CpuLinAlg as LinAlg>::Matrix| {
        let rows = backend.mat_rows(m);
        let cols = backend.mat_cols(m);
        for r in 0..rows {
            for c in 0..cols {
                if !backend.mat_get(m, r, c).is_finite() {
                    return true;
                }
            }
        }
        false
    };
    let check_vec = |v: &<CpuLinAlg as LinAlg>::Vector| {
        let n = backend.vec_len(v);
        for i in 0..n {
            if !backend.vec_get(v, i).is_finite() {
                return true;
            }
        }
        false
    };
    for f in agent.actor_fisher.iter().chain(agent.critic_fisher.iter()) {
        if check_mat(&f.f_total_weights)
            || check_mat(&f.f_ema_weights)
            || check_vec(&f.f_total_bias)
            || check_vec(&f.f_ema_bias)
        {
            return true;
        }
    }
    false
}

fn all_weights_finite(agent: &PcActorCritic) -> bool {
    for layer in agent.actor.layers.iter().chain(agent.critic.layers.iter()) {
        if !layer.weights.data.iter().all(|x| x.is_finite()) {
            return false;
        }
        if !layer.bias.iter().all(|x| x.is_finite()) {
            return false;
        }
    }
    true
}

fn flatten_all_weights(agent: &PcActorCritic) -> Vec<f64> {
    let mut out = Vec::new();
    for layer in agent.actor.layers.iter().chain(agent.critic.layers.iter()) {
        out.extend_from_slice(&layer.weights.data);
        out.extend_from_slice(&layer.bias);
    }
    out
}

fn replay_config(training_capacity: usize, recent_capacity: usize) -> PcActorCriticConfig {
    let mut cfg = default_config();
    cfg.replay_training_capacity = training_capacity;
    cfg.replay_recent_capacity = recent_capacity;
    cfg
}

#[test]
fn test_learn_empty_returns_zero_without_modifying_weights() {
    let mut agent: PcActorCritic = make_agent();
    let w_before = agent.actor.layers[0].weights.data.clone();
    let cw_before = agent.critic.layers[0].weights.data.clone();
    let loss = agent.learn(&[]);
    assert_eq!(loss, 0.0);
    assert_eq!(agent.actor.layers[0].weights.data, w_before);
    assert_eq!(agent.critic.layers[0].weights.data, cw_before);
}

#[test]
fn test_learn_updates_actor_weights() {
    let mut agent: PcActorCritic = make_agent();
    let trajectory = make_trajectory(&mut agent);
    let w_before = agent.actor.layers[0].weights.data.clone();
    let _ = agent.learn(&trajectory);
    assert_ne!(agent.actor.layers[0].weights.data, w_before);
}

#[test]
fn test_learn_updates_critic_weights() {
    let mut agent: PcActorCritic = make_agent();
    let trajectory = make_trajectory(&mut agent);
    let w_before = agent.critic.layers[0].weights.data.clone();
    let _ = agent.learn(&trajectory);
    assert_ne!(agent.critic.layers[0].weights.data, w_before);
}

#[test]
fn test_learn_returns_finite_nonneg_loss() {
    let mut agent: PcActorCritic = make_agent();
    let trajectory = make_trajectory(&mut agent);
    let loss = agent.learn(&trajectory);
    assert!(loss.is_finite(), "Loss {loss} is not finite");
    assert!(loss >= 0.0, "Loss {loss} is negative");
}

#[test]
fn test_learn_single_step_trajectory() {
    let mut agent: PcActorCritic = make_agent();
    let input = vec![0.5; 9];
    let valid = vec![0, 1, 2, 3, 4, 5, 6, 7, 8];
    let (action, infer) = agent.act(&input, &valid, SelectionMode::Training);
    let trajectory = vec![TrajectoryStep {
        input,
        latent_concat: infer.latent_concat,
        y_conv: infer.y_conv,
        hidden_states: infer.hidden_states,
        prediction_errors: infer.prediction_errors,
        tanh_components: infer.tanh_components,
        action,
        valid_actions: valid,
        reward: -1.0,
        surprise_score: infer.surprise_score,
        steps_used: infer.steps_used,
    }];
    let loss = agent.learn(&trajectory);
    assert!(loss.is_finite());
}

#[test]
fn test_learn_multi_step_uses_stored_hidden_states() {
    let mut agent: PcActorCritic = make_agent();
    let inputs = [
        vec![1.0, -1.0, 0.0, 0.5, -0.5, 1.0, -1.0, 0.0, 0.5],
        vec![0.5, 0.5, -1.0, 0.0, 1.0, -0.5, 0.0, -1.0, 0.5],
        vec![-1.0, 0.0, 1.0, -0.5, 0.5, 0.0, 1.0, -1.0, -0.5],
    ];
    let valid = vec![0, 1, 2, 3, 4, 5, 6, 7, 8];

    let mut trajectory = Vec::new();
    for (i, inp) in inputs.iter().enumerate() {
        let (action, infer) = agent.act(inp, &valid, SelectionMode::Training);
        trajectory.push(TrajectoryStep {
            input: inp.clone(),
            latent_concat: infer.latent_concat,
            y_conv: infer.y_conv,
            hidden_states: infer.hidden_states,
            prediction_errors: infer.prediction_errors,
            tanh_components: infer.tanh_components,
            action,
            valid_actions: valid.clone(),
            reward: if i == 2 { 1.0 } else { 0.0 },
            surprise_score: infer.surprise_score,
            steps_used: infer.steps_used,
        });
    }

    let loss = agent.learn(&trajectory);
    assert!(
        loss.is_finite(),
        "Multi-step learn should produce finite loss"
    );
    assert!(loss >= 0.0);
}

#[test]
fn test_learn_continuous_nonterminal_uses_next_value() {
    let mut agent: PcActorCritic = make_agent();
    let input = vec![0.5; 9];
    let next_input = vec![-0.5; 9];
    let valid = vec![0, 1, 2];
    let (action, infer) = agent.act(&input, &valid, SelectionMode::Training);
    let (_, next_infer) = agent.act(&next_input, &valid, SelectionMode::Training);

    let loss = agent.learn_continuous(
        &input,
        &infer,
        action,
        &valid,
        0.5,
        &next_input,
        &next_infer,
        false,
    );
    assert!(loss.is_finite());
}

#[test]
fn test_learn_continuous_terminal_uses_reward_only() {
    let mut agent: PcActorCritic = make_agent();
    let input = vec![0.5; 9];
    let next_input = vec![0.0; 9];
    let valid = vec![0, 1, 2];
    let (action, infer) = agent.act(&input, &valid, SelectionMode::Training);
    let (_, next_infer) = agent.act(&next_input, &valid, SelectionMode::Training);

    let loss = agent.learn_continuous(
        &input,
        &infer,
        action,
        &valid,
        1.0,
        &next_input,
        &next_infer,
        true,
    );
    assert!(loss.is_finite());
}

#[test]
fn test_learn_continuous_terminal_and_nonterminal_produce_different_updates() {
    let config = default_config();
    let mut agent_term: PcActorCritic =
        PcActorCritic::new(CpuLinAlg::new(), config.clone(), 42).unwrap();
    let mut agent_nonterm: PcActorCritic =
        PcActorCritic::new(CpuLinAlg::new(), config, 42).unwrap();

    let input = vec![0.5; 9];
    let next_input = vec![-0.5; 9];
    let valid = vec![0, 1, 2];

    let (action, infer) = agent_term.act(&input, &valid, SelectionMode::Training);
    let (_, next_infer) = agent_term.act(&next_input, &valid, SelectionMode::Training);

    let (action2, infer2) = agent_nonterm.act(&input, &valid, SelectionMode::Training);
    let (_, next_infer2) = agent_nonterm.act(&next_input, &valid, SelectionMode::Training);

    let loss_term = agent_term.learn_continuous(
        &input,
        &infer,
        action,
        &valid,
        1.0,
        &next_input,
        &next_infer,
        true,
    );

    let loss_nonterm = agent_nonterm.learn_continuous(
        &input,
        &infer2,
        action2,
        &valid,
        1.0,
        &next_input,
        &next_infer2,
        false,
    );

    assert!(
        (loss_term - loss_nonterm).abs() > 1e-15,
        "Terminal and non-terminal should produce different losses: {loss_term} vs {loss_nonterm}"
    );
}

#[test]
fn test_learn_continuous_updates_actor() {
    let mut agent: PcActorCritic = make_agent();
    let input = vec![0.5; 9];
    let next_input = vec![-0.5; 9];
    let valid = vec![0, 1, 2];
    let (action, infer) = agent.act(&input, &valid, SelectionMode::Training);
    let (_, next_infer) = agent.act(&next_input, &valid, SelectionMode::Training);
    let w_before = agent.actor.layers[0].weights.data.clone();
    let _ = agent.learn_continuous(
        &input,
        &infer,
        action,
        &valid,
        1.0,
        &next_input,
        &next_infer,
        false,
    );
    assert_ne!(agent.actor.layers[0].weights.data, w_before);
}

#[test]
fn test_surprise_scale_below_low() {
    let agent: PcActorCritic = make_agent();
    let scale = agent.surprise_scale(0.01);
    assert!((scale - 0.1).abs() < 1e-12, "Expected 0.1, got {scale}");
}

#[test]
fn test_surprise_scale_above_high() {
    let agent: PcActorCritic = make_agent();
    let scale = agent.surprise_scale(0.20);
    assert!((scale - 2.0).abs() < 1e-12, "Expected 2.0, got {scale}");
}

#[test]
fn test_surprise_scale_midpoint_in_range() {
    let agent: PcActorCritic = make_agent();
    let midpoint = (0.02 + 0.15) / 2.0;
    let scale = agent.surprise_scale(midpoint);
    assert!(
        scale > 0.1 && scale < 2.0,
        "Midpoint scale {scale} out of range"
    );
}

#[test]
fn test_surprise_scale_monotone_increasing() {
    let agent: PcActorCritic = make_agent();
    let s1 = agent.surprise_scale(0.01);
    let s2 = agent.surprise_scale(0.05);
    let s3 = agent.surprise_scale(0.10);
    let s4 = agent.surprise_scale(0.20);
    assert!(s1 <= s2, "s1={s1} > s2={s2}");
    assert!(s2 <= s3, "s2={s2} > s3={s3}");
    assert!(s3 <= s4, "s3={s3} > s4={s4}");
}

#[test]
fn test_adaptive_surprise_recalibrates_thresholds_after_many_episodes() {
    let mut config = default_config();
    config.adaptive_surprise = true;
    let mut agent: PcActorCritic = PcActorCritic::new(CpuLinAlg::new(), config, 42).unwrap();

    for i in 0..15 {
        agent.push_surprise(0.1 + 0.02 * i as f64);
    }


    let scale_low = agent.surprise_scale(0.0);
    assert!(
        (scale_low - 0.1).abs() < 1e-12,
        "Expected 0.1 below adaptive low: got {scale_low}"
    );

    let scale_high = agent.surprise_scale(1.0);
    assert!(
        (scale_high - 2.0).abs() < 1e-12,
        "Expected 2.0 above adaptive high: got {scale_high}"
    );

    let scale_mid = agent.surprise_scale(0.24);
    assert!(
        scale_mid > 0.1 && scale_mid < 2.0,
        "Expected interpolated value at mean, got {scale_mid}"
    );
}

#[test]
fn test_entropy_regularization_prevents_policy_collapse() {
    let mut config = default_config();
    config.entropy_coeff = 0.1;
    let mut agent: PcActorCritic = PcActorCritic::new(CpuLinAlg::new(), config, 42).unwrap();

    let input = vec![0.5; 9];
    let valid: Vec<usize> = (0..9).collect();

    for _ in 0..20 {
        let (action, infer) = agent.act(&input, &valid, SelectionMode::Training);
        let trajectory = vec![TrajectoryStep {
            input: input.clone(),
            latent_concat: infer.latent_concat,
            y_conv: infer.y_conv,
            hidden_states: infer.hidden_states,
            prediction_errors: infer.prediction_errors,
            tanh_components: infer.tanh_components,
            action,
            valid_actions: valid.clone(),
            reward: 1.0,
            surprise_score: infer.surprise_score,
            steps_used: infer.steps_used,
        }];
        let _ = agent.learn(&trajectory);
    }

    let mut seen = std::collections::HashSet::new();
    for _ in 0..50 {
        let (action, _) = agent.act(&input, &valid, SelectionMode::Training);
        seen.insert(action);
    }
    assert!(
        seen.len() > 1,
        "Entropy regularization should prevent collapse to single action, but only saw {:?}",
        seen
    );
}

#[test]
fn test_act_returns_valid_action() {
    let mut agent: PcActorCritic = make_agent();
    let input = vec![0.5; 9];
    let valid = vec![1, 3, 5, 7];
    for _ in 0..20 {
        let (action, _) = agent.act(&input, &valid, SelectionMode::Training);
        assert!(valid.contains(&action), "Action {action} not in valid set");
    }
}

#[test]
#[should_panic]
fn test_act_empty_valid_panics() {
    let mut agent: PcActorCritic = make_agent();
    let input = vec![0.5; 9];
    let _ = agent.act(&input, &[], SelectionMode::Training);
}

#[test]
fn test_learn_improves_policy_for_rewarded_action() {
    let config = PcActorCriticConfig {
        actor: PcActorConfig {
            input_size: 9,
            hidden_layers: vec![LayerDef {
                size: 18,
                activation: Activation::Tanh,
            }],
            output_size: 9,
            output_activation: Activation::Linear,
            alpha: 0.1,
            tol: 0.01,
            min_steps: 1,
            max_steps: 5,
            lr_weights: 0.01,
            synchronous: true,
            temperature: 1.0,
            local_lambda: 1.0,
            residual: false,
            rezero_init: 0.001,
        },
        critic: MlpCriticConfig {
            input_size: 27,
            hidden_layers: vec![LayerDef {
                size: 36,
                activation: Activation::Tanh,
            }],
            output_activation: Activation::Linear,
            lr: 0.005,
        },
        gamma: 0.99,
        surprise_low: 0.02,
        surprise_high: 0.15,
        adaptive_surprise: false,
        surprise_buffer_size: 100,
        entropy_coeff: 0.0,
        scale_floor: 0.1,
        scale_ceil: 2.0,
        actor_hysteresis: false,
        actor_fast_window: 20,
        actor_slow_window: 100,
        actor_wake_fraction: 0.5,
        actor_sleep_fraction: 0.3,
        critic_hysteresis: false,
        critic_fast_window: 20,
        critic_slow_window: 100,
        critic_wake_fraction: 0.5,
        critic_sleep_fraction: 0.3,
        actor_wakes_critic: true,
        actor_wakes_critic_threshold: 1000,
        critic_wakes_actor: true,
        critic_wakes_actor_threshold: 1000,
        consolidation_decay: 1.0,
        critic_consolidation_decay: 1.0,
        adaptive_consolidation: false,
        consolidation_ema_beta: 0.99,
        consolidation_sigmoid_k: 10.0,
        consolidation_error_threshold: 0.05,
        ewc_lambda: 0.0,
        fisher_decay: 0.9,
        fisher_ema_beta: 0.99,
        logits_reversal: false,
        td_steps: 0,
        gae_lambda: None,
        distillation_lambda_polyak: 0.0,
        polyak_tau: 0.005,
        distillation_lambda_frozen: 0.0,
        replay_training_capacity: 0,
        replay_recent_capacity: 0,
        replay_positive_only: true,
        replay_batch_size: 64,
        scale_floor_replay: -1.0,
        critic_floor_replay: -1.0,
        action_space: ActionSpace::Discrete,
        policy_sigma: 0.1,
    };
    let mut agent: PcActorCritic = PcActorCritic::new(CpuLinAlg::new(), config, 42).unwrap();

    let input = vec![0.0; 9];
    let valid = vec![0, 1, 2, 3, 4, 5, 6, 7, 8];
    let target_action = 4;

    for _ in 0..200 {
        let (_, infer) = agent.act(&input, &valid, SelectionMode::Training);
        let trajectory = vec![TrajectoryStep {
            input: input.clone(),
            latent_concat: infer.latent_concat,
            y_conv: infer.y_conv,
            hidden_states: infer.hidden_states,
            prediction_errors: infer.prediction_errors,
            tanh_components: infer.tanh_components,
            action: target_action,
            valid_actions: valid.clone(),
            reward: 1.0,
            surprise_score: infer.surprise_score,
            steps_used: infer.steps_used,
        }];
        agent.learn(&trajectory);
    }

    let (action, infer) = agent.act(&input, &valid, SelectionMode::Play);

    let logit_4 = infer.y_conv[4];
    let max_other = valid
        .iter()
        .filter(|&&a| a != 4)
        .map(|&a| infer.y_conv[a])
        .fold(f64::NEG_INFINITY, f64::max);


    assert_eq!(
        action, target_action,
        "After 200 episodes rewarding action 4, agent should prefer it. Got action {action}"
    );
}

#[test]
fn test_new_returns_error_zero_temperature() {
    let mut config = default_config();
    config.actor.temperature = 0.0;
    let err = PcActorCritic::new(CpuLinAlg::new(), config, 42)
        .map(|_: PcActorCritic| ())
        .unwrap_err();
    assert!(err.to_string().contains("temperature"));
}

#[test]
fn test_new_returns_error_zero_input_size() {
    let mut config = default_config();
    config.actor.input_size = 0;
    config.critic.input_size = 0;
    assert!(PcActorCritic::new(CpuLinAlg::new(), config, 42)
        .map(|_: PcActorCritic| ())
        .is_err());
}

#[test]
fn test_new_returns_error_zero_output_size() {
    let mut config = default_config();
    config.actor.output_size = 0;
    assert!(PcActorCritic::new(CpuLinAlg::new(), config, 42)
        .map(|_: PcActorCritic| ())
        .is_err());
}

#[test]
fn test_new_returns_error_negative_gamma() {
    let mut config = default_config();
    config.gamma = -0.1;
    let err = PcActorCritic::new(CpuLinAlg::new(), config, 42)
        .map(|_: PcActorCritic| ())
        .unwrap_err();
    assert!(err.to_string().contains("gamma"));
}

#[test]
fn test_new_returns_error_surprise_buffer_size_zero() {
    let mut config = default_config();
    config.adaptive_surprise = true;
    config.surprise_buffer_size = 0;
    let result = PcActorCritic::new(CpuLinAlg::new(), config, 42).map(|_: PcActorCritic| ());
    assert!(result.is_err());
    let err = result.unwrap_err();
    assert!(
        err.to_string().contains("surprise_buffer_size"),
        "Expected surprise_buffer_size error, got: {err:?}"
    );
}

#[test]
fn test_activation_cache_record_increments_batch_size() {
    let mut agent: PcActorCritic = make_agent();
    let input = vec![0.5; 9];
    let valid = vec![0, 1, 2];
    let (_, infer) = agent.act(&input, &valid, SelectionMode::Training);

    let num_hidden = infer.hidden_states.len();
    let mut cache: ActivationCache = ActivationCache::new(num_hidden);
    cache.record(&infer.hidden_states);
    assert_eq!(cache.batch_size(), 1);
}

#[test]
fn test_activation_cache_record_multiple() {
    let mut agent: PcActorCritic = make_agent();
    let valid = vec![0, 1, 2];
    let init_input = vec![0.5; 9];
    let num_hidden = {
        let (_, infer) = agent.act(&init_input, &valid, SelectionMode::Training);
        infer.hidden_states.len()
    };

    let mut cache: ActivationCache = ActivationCache::new(num_hidden);
    for i in 0..5 {
        let input = vec![i as f64 * 0.1; 9];
        let (_, infer) = agent.act(&input, &valid, SelectionMode::Training);
        cache.record(&infer.hidden_states);
    }
    assert_eq!(cache.batch_size(), 5);
}

#[test]
fn test_activation_cache_recorded_values_match_hidden_states() {
    let mut agent: PcActorCritic = make_agent();
    let input = vec![0.5; 9];
    let valid = vec![0, 1, 2];
    let (_, infer) = agent.act(&input, &valid, SelectionMode::Training);

    let num_hidden = infer.hidden_states.len();
    let mut cache: ActivationCache = ActivationCache::new(num_hidden);
    cache.record(&infer.hidden_states);

    for (layer_idx, expected) in infer.hidden_states.iter().enumerate() {
        let layer_data = cache.layer(layer_idx);
        assert_eq!(layer_data.len(), 1);
        assert_eq!(layer_data[0], *expected);
    }
}

#[test]
fn test_activation_cache_layer_count() {
    let mut agent: PcActorCritic = make_agent();
    let input = vec![0.5; 9];
    let valid = vec![0, 1, 2];
    let (_, infer) = agent.act(&input, &valid, SelectionMode::Training);

    let num_hidden = infer.hidden_states.len();
    let mut cache: ActivationCache = ActivationCache::new(num_hidden);
    cache.record(&infer.hidden_states);

    assert_eq!(cache.num_layers(), num_hidden);
}

#[test]
fn test_activation_cache_layer_sample_count() {
    let mut agent: PcActorCritic = make_agent();
    let valid = vec![0, 1, 2];
    let init_input = vec![0.5; 9];
    let num_hidden = {
        let (_, infer) = agent.act(&init_input, &valid, SelectionMode::Training);
        infer.hidden_states.len()
    };

    let mut cache: ActivationCache = ActivationCache::new(num_hidden);
    for i in 0..10 {
        let input = vec![i as f64 * 0.1; 9];
        let (_, infer) = agent.act(&input, &valid, SelectionMode::Training);
        cache.record(&infer.hidden_states);
    }

    for layer_idx in 0..num_hidden {
        assert_eq!(
            cache.layer(layer_idx).len(),
            10,
            "Layer {layer_idx} should have 10 samples"
        );
    }
}

#[test]
fn test_agent_crossover_produces_valid_agent() {
    let config = default_config();
    let mut agent_a: PcActorCritic =
        PcActorCritic::new(CpuLinAlg::new(), config.clone(), 42).unwrap();
    let mut agent_b: PcActorCritic =
        PcActorCritic::new(CpuLinAlg::new(), config.clone(), 123).unwrap();

    let (ac_a, cc_a) = build_caches_for_agent(&mut agent_a, 50);
    let (ac_b, cc_b) = build_caches_for_agent(&mut agent_b, 50);

    let child: PcActorCritic = PcActorCritic::crossover(
        &agent_a, &agent_b, &ac_a, &ac_b, &cc_a, &cc_b, 0.5, config, 99,
    )
    .unwrap();

    assert_eq!(
        child.config.actor.hidden_layers.len(),
        agent_a.config.actor.hidden_layers.len()
    );
}

#[test]
fn test_agent_crossover_actor_weights_differ() {
    let config = default_config();
    let mut agent_a: PcActorCritic =
        PcActorCritic::new(CpuLinAlg::new(), config.clone(), 42).unwrap();
    let mut agent_b: PcActorCritic =
        PcActorCritic::new(CpuLinAlg::new(), config.clone(), 123).unwrap();

    let (ac_a, cc_a) = build_caches_for_agent(&mut agent_a, 50);
    let (ac_b, cc_b) = build_caches_for_agent(&mut agent_b, 50);

    let child: PcActorCritic = PcActorCritic::crossover(
        &agent_a, &agent_b, &ac_a, &ac_b, &cc_a, &cc_b, 0.5, config, 99,
    )
    .unwrap();

    assert_ne!(
        child.actor.layers[0].weights.data,
        agent_a.actor.layers[0].weights.data
    );
    assert_ne!(
        child.actor.layers[0].weights.data,
        agent_b.actor.layers[0].weights.data
    );
}

#[test]
fn test_agent_crossover_critic_weights_differ() {
    let config = default_config();
    let mut agent_a: PcActorCritic =
        PcActorCritic::new(CpuLinAlg::new(), config.clone(), 42).unwrap();
    let mut agent_b: PcActorCritic =
        PcActorCritic::new(CpuLinAlg::new(), config.clone(), 123).unwrap();

    let (ac_a, cc_a) = build_caches_for_agent(&mut agent_a, 50);
    let (ac_b, cc_b) = build_caches_for_agent(&mut agent_b, 50);

    let child: PcActorCritic = PcActorCritic::crossover(
        &agent_a, &agent_b, &ac_a, &ac_b, &cc_a, &cc_b, 0.5, config, 99,
    )
    .unwrap();

    assert_ne!(
        child.critic.layers[0].weights.data,
        agent_a.critic.layers[0].weights.data
    );
    assert_ne!(
        child.critic.layers[0].weights.data,
        agent_b.critic.layers[0].weights.data
    );
}

#[test]
fn test_agent_crossover_child_can_infer() {
    let config = default_config();
    let mut agent_a: PcActorCritic =
        PcActorCritic::new(CpuLinAlg::new(), config.clone(), 42).unwrap();
    let mut agent_b: PcActorCritic =
        PcActorCritic::new(CpuLinAlg::new(), config.clone(), 123).unwrap();

    let (ac_a, cc_a) = build_caches_for_agent(&mut agent_a, 50);
    let (ac_b, cc_b) = build_caches_for_agent(&mut agent_b, 50);

    let mut child: PcActorCritic = PcActorCritic::crossover(
        &agent_a, &agent_b, &ac_a, &ac_b, &cc_a, &cc_b, 0.5, config, 99,
    )
    .unwrap();

    let input = vec![0.5; 9];
    let valid = vec![0, 1, 2, 3, 4];
    let (action, _) = child.act(&input, &valid, SelectionMode::Training);
    assert!(valid.contains(&action), "Action {action} not in valid set");
}

#[test]
fn test_agent_crossover_child_can_learn() {
    let config = default_config();
    let mut agent_a: PcActorCritic =
        PcActorCritic::new(CpuLinAlg::new(), config.clone(), 42).unwrap();
    let mut agent_b: PcActorCritic =
        PcActorCritic::new(CpuLinAlg::new(), config.clone(), 123).unwrap();

    let (ac_a, cc_a) = build_caches_for_agent(&mut agent_a, 50);
    let (ac_b, cc_b) = build_caches_for_agent(&mut agent_b, 50);

    let mut child: PcActorCritic = PcActorCritic::crossover(
        &agent_a, &agent_b, &ac_a, &ac_b, &cc_a, &cc_b, 0.5, config, 99,
    )
    .unwrap();

    let trajectory = make_trajectory(&mut child);
    let loss = child.learn(&trajectory);
    assert!(loss.is_finite(), "Child learn loss not finite: {loss}");
}

#[test]
fn test_agent_crossover_mismatched_batch_size_error() {
    let config = default_config();
    let mut agent_a: PcActorCritic =
        PcActorCritic::new(CpuLinAlg::new(), config.clone(), 42).unwrap();
    let mut agent_b: PcActorCritic =
        PcActorCritic::new(CpuLinAlg::new(), config.clone(), 123).unwrap();

    let (ac_a, cc_a) = build_caches_for_agent(&mut agent_a, 50);
    let (ac_b, _cc_b) = build_caches_for_agent(&mut agent_b, 30);
    let (_, cc_b_match) = build_caches_for_agent(&mut agent_b, 50);

    let result = PcActorCritic::crossover(
        &agent_a,
        &agent_b,
        &ac_a,
        &ac_b,
        &cc_a,
        &cc_b_match,
        0.5,
        config,
        99,
    );
    assert!(result.is_err(), "Mismatched actor batch sizes should error");
}

#[test]
fn test_agent_crossover_with_separate_critic_caches() {
    let config = default_config();
    let mut agent_a: PcActorCritic =
        PcActorCritic::new(CpuLinAlg::new(), config.clone(), 42).unwrap();
    let mut agent_b: PcActorCritic =
        PcActorCritic::new(CpuLinAlg::new(), config.clone(), 123).unwrap();

    let (ac_a, cc_a) = build_caches_for_agent(&mut agent_a, 50);
    let (ac_b, cc_b) = build_caches_for_agent(&mut agent_b, 50);

    let child: PcActorCritic = PcActorCritic::crossover(
        &agent_a, &agent_b, &ac_a, &ac_b, &cc_a, &cc_b, 0.5, config, 99,
    )
    .unwrap();

    assert_eq!(child.critic.layers.len(), agent_a.critic.layers.len());
}

#[test]
fn test_agent_crossover_critic_uses_own_caches() {
    let config = default_config();
    let mut agent_a: PcActorCritic =
        PcActorCritic::new(CpuLinAlg::new(), config.clone(), 42).unwrap();
    let mut agent_b: PcActorCritic =
        PcActorCritic::new(CpuLinAlg::new(), config.clone(), 123).unwrap();

    let (ac_a, cc_a) = build_caches_for_agent(&mut agent_a, 50);
    let (ac_b, cc_b) = build_caches_for_agent(&mut agent_b, 50);

    let child: PcActorCritic = PcActorCritic::crossover(
        &agent_a, &agent_b, &ac_a, &ac_b, &cc_a, &cc_b, 0.5, config, 99,
    )
    .unwrap();

    assert_ne!(
        child.critic.layers[0].weights.data,
        agent_a.critic.layers[0].weights.data
    );
    assert_ne!(
        child.critic.layers[0].weights.data,
        agent_b.critic.layers[0].weights.data
    );
}

#[test]
fn test_agent_crossover_mismatched_critic_batch_error() {
    let config = default_config();
    let mut agent_a: PcActorCritic =
        PcActorCritic::new(CpuLinAlg::new(), config.clone(), 42).unwrap();
    let mut agent_b: PcActorCritic =
        PcActorCritic::new(CpuLinAlg::new(), config.clone(), 123).unwrap();

    let (ac_a, cc_a) = build_caches_for_agent(&mut agent_a, 50);
    let (ac_b, _) = build_caches_for_agent(&mut agent_b, 50);
    let (_, cc_b_small) = build_caches_for_agent(&mut agent_b, 30);

    let result = PcActorCritic::crossover(
        &agent_a,
        &agent_b,
        &ac_a,
        &ac_b,
        &cc_a,
        &cc_b_small,
        0.5,
        config,
        99,
    );
    assert!(
        result.is_err(),
        "Mismatched critic batch sizes should error"
    );
}

#[test]
fn test_activation_cache_accessible_from_crate() {
    let _cache: ActivationCache = ActivationCache::new(1);
}

#[test]
fn step_step_matches_learn_continuous_td0() {
    let config = default_config();
    let mut agent_a: PcActorCritic =
        PcActorCritic::new(CpuLinAlg::new(), config.clone(), 42).unwrap();

    let s1 = vec![1.0, -1.0, 0.0, 0.5, -0.5, 1.0, -1.0, 0.0, 0.5];
    let s2 = vec![0.5, 0.5, -1.0, 0.0, 1.0, -0.5, 0.0, -1.0, 0.5];
    let reward = 1.0;

    let _a1 = agent_a.step(&s1, 0.0, false);
    let _a2 = agent_a.step(&s2, reward, false);

    let mut agent_b: PcActorCritic = PcActorCritic::new(CpuLinAlg::new(), config, 42).unwrap();
    let all_actions: Vec<usize> = (0..9).collect();

    let (action1, infer1) = agent_b.act(&s1, &all_actions, SelectionMode::Training);
    let (_, infer2) = agent_b.act(&s2, &all_actions, SelectionMode::Training);

    let _ = agent_b.learn_continuous(
        &s1,
        &infer1,
        action1,
        &all_actions,
        reward,
        &s2,
        &infer2,
        false,
    );

    let w_a = collect_all_weights(&agent_a);
    let w_b = collect_all_weights(&agent_b);
    assert_eq!(w_a.len(), w_b.len());
    for (i, (a, b)) in w_a.iter().zip(w_b.iter()).enumerate() {
        assert!(
            (a - b).abs() < 1e-12,
            "Weight mismatch at index {i}: step={a} vs learn_continuous={b}"
        );
    }
}

#[test]
fn step_terminal_uses_zero_bootstrap() {
    let config = default_config();
    let mut agent_a: PcActorCritic =
        PcActorCritic::new(CpuLinAlg::new(), config.clone(), 42).unwrap();

    let s1 = vec![1.0, -1.0, 0.0, 0.5, -0.5, 1.0, -1.0, 0.0, 0.5];
    let s2 = vec![0.5, 0.5, -1.0, 0.0, 1.0, -0.5, 0.0, -1.0, 0.5];

    let _a1 = agent_a.step(&s1, 0.0, false);
    let _a2 = agent_a.step(&s2, 1.0, true);

    let mut agent_b: PcActorCritic = PcActorCritic::new(CpuLinAlg::new(), config, 42).unwrap();
    let all_actions: Vec<usize> = (0..9).collect();

    let (action1, infer1) = agent_b.act(&s1, &all_actions, SelectionMode::Training);
    let (_, infer2) = agent_b.act(&s2, &all_actions, SelectionMode::Training);

    let _ =
        agent_b.learn_continuous(&s1, &infer1, action1, &all_actions, 1.0, &s2, &infer2, true);

    let w_a = collect_all_weights(&agent_a);
    let w_b = collect_all_weights(&agent_b);
    for (i, (a, b)) in w_a.iter().zip(w_b.iter()).enumerate() {
        assert!(
            (a - b).abs() < 1e-12,
            "Weight mismatch at index {i}: step={a} vs learn_continuous={b}"
        );
    }
}

#[test]
fn step_masked_stores_valid_actions_for_learning() {
    let config = default_config();
    let mut agent_a: PcActorCritic =
        PcActorCritic::new(CpuLinAlg::new(), config.clone(), 42).unwrap();

    let s1 = vec![1.0, -1.0, 0.0, 0.5, -0.5, 1.0, -1.0, 0.0, 0.5];
    let s2 = vec![0.5, 0.5, -1.0, 0.0, 1.0, -0.5, 0.0, -1.0, 0.5];
    let mask = vec![0, 2, 5];

    let _a1 = agent_a.step_masked(&s1, &mask, 0.0, false).unwrap();
    let all_actions: Vec<usize> = (0..9).collect();
    let _a2 = agent_a.step(&s2, 1.0, false);

    let mut agent_b: PcActorCritic = PcActorCritic::new(CpuLinAlg::new(), config, 42).unwrap();

    let (action1, infer1) = agent_b.act(&s1, &mask, SelectionMode::Training);
    let (_, infer2) = agent_b.act(&s2, &all_actions, SelectionMode::Training);

    let _ = agent_b.learn_continuous(&s1, &infer1, action1, &mask, 1.0, &s2, &infer2, false);

    let w_a = collect_all_weights(&agent_a);
    let w_b = collect_all_weights(&agent_b);
    for (i, (a, b)) in w_a.iter().zip(w_b.iter()).enumerate() {
        assert!(
            (a - b).abs() < 1e-12,
            "Weight mismatch at index {i}: step_masked={a} vs learn_continuous={b}"
        );
    }
}

#[test]
fn step_first_call_skips_learning() {
    let mut agent: PcActorCritic = make_agent();
    let w_before = collect_all_weights(&agent);
    let state = vec![0.5; 9];
    let action = agent.step(&state, 0.0, false);
    assert!(action < 9, "Action {action} out of bounds");
    let w_after = collect_all_weights(&agent);
    assert_eq!(
        w_before, w_after,
        "Weights should not change on first step()"
    );
}

#[test]
fn step_second_call_modifies_weights() {
    let mut agent: PcActorCritic = make_agent();
    let s1 = vec![1.0, -1.0, 0.0, 0.5, -0.5, 1.0, -1.0, 0.0, 0.5];
    let s2 = vec![0.5, 0.5, -1.0, 0.0, 1.0, -0.5, 0.0, -1.0, 0.5];
    let _ = agent.step(&s1, 0.0, false);
    let w_before = collect_all_weights(&agent);
    let _ = agent.step(&s2, 1.0, false);
    let w_after = collect_all_weights(&agent);
    assert_ne!(
        w_before, w_after,
        "Weights should change after second step()"
    );
}

#[test]
fn step_terminal_clears_state() {
    let mut agent: PcActorCritic = make_agent();
    let s1 = vec![1.0; 9];
    let s2 = vec![-1.0; 9];
    let s3 = vec![0.5; 9];

    let _ = agent.step(&s1, 0.0, false);
    let _ = agent.step(&s2, 1.0, true);
    let w_after_terminal = collect_all_weights(&agent);

    let _ = agent.step(&s3, 0.0, false);
    let w_after_first = collect_all_weights(&agent);
    assert_eq!(
        w_after_terminal, w_after_first,
        "First step after terminal should skip learning"
    );
}

#[test]
fn step_masked_action_in_valid_set() {
    let valid = vec![0, 2, 5];
    for seed in 0..100u64 {
        let mut agent: PcActorCritic =
            PcActorCritic::new(CpuLinAlg::new(), default_config(), seed).unwrap();
        let state = vec![0.5; 9];
        let action = agent.step_masked(&state, &valid, 0.0, false).unwrap();
        assert!(
            valid.contains(&action),
            "seed={seed}: action {action} not in valid set {valid:?}"
        );
    }
}

#[test]
fn reset_step_clears_only_step_state() {
    let mut agent: PcActorCritic = make_agent();
    let s1 = vec![1.0; 9];
    let s2 = vec![-1.0; 9];

    let _ = agent.step(&s1, 0.0, false);
    let w_before = collect_all_weights(&agent);

    agent.reset_step();

    let w_after = collect_all_weights(&agent);
    assert_eq!(w_before, w_after, "reset_step() must not change weights");

    let _ = agent.step(&s2, 0.5, false);
    let w_after_step = collect_all_weights(&agent);
    assert_eq!(
        w_after, w_after_step,
        "First step after reset should skip learning"
    );
}

#[test]
fn reset_step_does_not_affect_surprise_buffer() {
    let mut config = default_config();
    config.adaptive_surprise = true;
    let mut agent: PcActorCritic = PcActorCritic::new(CpuLinAlg::new(), config, 42).unwrap();

    let s1 = vec![1.0; 9];
    let s2 = vec![-1.0; 9];

    let _ = agent.step(&s1, 0.0, false);
    let _ = agent.step(&s2, 1.0, false);
    let buf_len_before = agent.surprises().len();

    agent.reset_step();

    assert_eq!(
        agent.surprises().len(),
        buf_len_before,
        "reset_step() must not affect surprise buffer"
    );
}

#[test]
fn learn_deprecated_still_functional() {
    let mut agent: PcActorCritic = make_agent();
    let trajectory = make_trajectory(&mut agent);
    let loss = agent.learn(&trajectory);
    assert!(loss.is_finite(), "learn() should still return finite loss");
}

#[test]
fn act_not_deprecated() {
    let mut agent: PcActorCritic = make_agent();
    let input = vec![0.5; 9];
    let valid = vec![0, 1, 2];
    let (action, infer) = agent.act(&input, &valid, SelectionMode::Training);
    assert!(action < 9);
    assert!(infer.surprise_score.is_finite());
}

#[test]
fn step_masked_empty_valid_actions_handled() {
    let mut agent: PcActorCritic = make_agent();
    let state = vec![0.5; 9];
    let result = agent.step_masked(&state, &[], 0.0, false);
    assert!(
        result.is_err(),
        "step_masked with empty valid_actions should return Err"
    );
    let err_msg = result.unwrap_err().to_string();
    assert!(
        err_msg.contains("valid_actions must not be empty"),
        "error message should mention valid_actions: {err_msg}"
    );
}

#[test]
fn test_scale_floor_zero_produces_zero_scale() {
    let cfg = config_with_scale(0.0, 2.0);
    let agent: PcActorCritic = PcActorCritic::new(CpuLinAlg::new(), cfg, 42).unwrap();
    let scale = agent.surprise_scale(0.01);
    assert!(
        scale.abs() < 1e-12,
        "Expected 0.0 for surprise below low with floor=0.0, got {scale}"
    );
}

#[test]
fn test_scale_floor_0_1_ceil_2_0_matches_v2() {
    let cfg = config_with_scale(0.1, 2.0);
    let agent: PcActorCritic = PcActorCritic::new(CpuLinAlg::new(), cfg, 42).unwrap();
    let s_low = agent.surprise_scale(0.01);
    assert!(
        (s_low - 0.1).abs() < 1e-12,
        "Expected 0.1 below low, got {s_low}"
    );
    let s_high = agent.surprise_scale(0.20);
    assert!(
        (s_high - 2.0).abs() < 1e-12,
        "Expected 2.0 above high, got {s_high}"
    );
    let midpoint = (0.02 + 0.15) / 2.0;
    let s_mid = agent.surprise_scale(midpoint);
    assert!(
        s_mid > 0.1 && s_mid < 2.0,
        "Expected midpoint in (0.1, 2.0), got {s_mid}"
    );
}

#[test]
fn test_scale_ceil_custom_value() {
    let cfg = config_with_scale(0.0, 3.0);
    let agent: PcActorCritic = PcActorCritic::new(CpuLinAlg::new(), cfg, 42).unwrap();
    let scale = agent.surprise_scale(0.20);
    assert!(
        (scale - 3.0).abs() < 1e-12,
        "Expected 3.0 above high with ceil=3.0, got {scale}"
    );
}

#[test]
fn test_scale_interpolation_midpoint() {
    let cfg = config_with_scale(0.0, 2.0);
    let agent: PcActorCritic = PcActorCritic::new(CpuLinAlg::new(), cfg, 42).unwrap();
    let midpoint = (0.02 + 0.15) / 2.0;
    let scale = agent.surprise_scale(midpoint);
    assert!(
        (scale - 1.0).abs() < 1e-12,
        "Expected 1.0 at midpoint with floor=0.0/ceil=2.0, got {scale}"
    );
}

#[test]
fn test_scale_floor_negative_rejected() {
    let cfg = config_with_scale(-0.1, 2.0);
    let result: Result<PcActorCritic, _> = PcActorCritic::new(CpuLinAlg::new(), cfg, 42);
    assert!(result.is_err(), "Negative scale_floor should be rejected");
    let err_msg = result.unwrap_err().to_string();
    assert!(
        err_msg.contains("scale_floor"),
        "Error should mention scale_floor: {err_msg}"
    );
}

#[test]
fn test_scale_ceil_less_than_floor_rejected() {
    let cfg = config_with_scale(2.0, 1.0);
    let result: Result<PcActorCritic, _> = PcActorCritic::new(CpuLinAlg::new(), cfg, 42);
    assert!(
        result.is_err(),
        "scale_ceil < scale_floor should be rejected"
    );
    let err_msg = result.unwrap_err().to_string();
    assert!(
        err_msg.contains("scale_ceil"),
        "Error should mention scale_ceil: {err_msg}"
    );
}

#[test]
fn test_scale_floor_equals_ceil_degenerate() {
    let cfg = config_with_scale(1.0, 1.0);
    let result: Result<PcActorCritic, _> = PcActorCritic::new(CpuLinAlg::new(), cfg, 42);
    assert!(
        result.is_err(),
        "scale_floor == scale_ceil should be rejected (ceil must be > floor)"
    );
}

#[test]
fn actor_critic_independent_hysteresis() {
    let mut cfg = default_config();
    cfg.actor_hysteresis = true;
    cfg.critic_hysteresis = true;
    cfg.adaptive_surprise = true;
    cfg.surprise_buffer_size = 100;
    let mut agent = PcActorCritic::new(CpuLinAlg::new(), cfg, 42).unwrap();

    assert!(agent.actor_hysteresis.is_some());
    assert!(agent.critic_hysteresis.is_some());

    agent.actor_hysteresis.as_mut().unwrap().state = PlasticityState::Frozen;
    assert_eq!(
        agent.critic_hysteresis.as_ref().unwrap().state,
        PlasticityState::Plastic
    );

    for _ in 0..20 {
        agent.td_error_buffer.push_back(sc(0.5));
    }

    let actor_scale = agent.effective_actor_scale(0.5);
    assert!((actor_scale - agent.config.scale_floor).abs() < f64::EPSILON);

    let critic_scale = agent.critic_surprise_scale(0.5);
    assert!(critic_scale >= agent.config.scale_floor);
    assert!(critic_scale <= agent.config.scale_ceil);
}

#[test]
fn actor_wakes_critic_coupling_default_threshold() {
    let mut cfg = default_config();
    cfg.actor_hysteresis = true;
    cfg.critic_hysteresis = true;
    cfg.actor_wakes_critic = true;
    let mut agent = PcActorCritic::new(CpuLinAlg::new(), cfg, 42).unwrap();

    agent.actor_hysteresis.as_mut().unwrap().state = PlasticityState::Frozen;
    agent.critic_hysteresis.as_mut().unwrap().state = PlasticityState::Frozen;
    agent.critic_frozen_steps = 1000;

    setup_for_wake(agent.actor_hysteresis.as_mut().unwrap());

    agent.process_hysteresis(1.0, 0.0);

    assert_eq!(
        agent.actor_hysteresis.as_ref().unwrap().state,
        PlasticityState::Plastic
    );
    assert_eq!(
        agent.critic_hysteresis.as_ref().unwrap().state,
        PlasticityState::Plastic
    );
    assert_eq!(agent.actor_plastic_step_counter, 0);
    assert_eq!(agent.critic_frozen_steps, 0);
}

#[test]
fn actor_wakes_critic_custom_threshold() {
    let mut cfg = default_config();
    cfg.actor_hysteresis = true;
    cfg.critic_hysteresis = true;
    cfg.actor_wakes_critic = true;
    cfg.actor_wakes_critic_threshold = 50;
    let mut agent = PcActorCritic::new(CpuLinAlg::new(), cfg, 42).unwrap();

    agent.actor_hysteresis.as_mut().unwrap().state = PlasticityState::Frozen;
    agent.critic_hysteresis.as_mut().unwrap().state = PlasticityState::Frozen;
    agent.critic_frozen_steps = 40;

    setup_for_wake(agent.actor_hysteresis.as_mut().unwrap());
    agent.process_hysteresis(1.0, 0.0);

    assert_eq!(
        agent.actor_hysteresis.as_ref().unwrap().state,
        PlasticityState::Plastic
    );
    assert_eq!(
        agent.critic_hysteresis.as_ref().unwrap().state,
        PlasticityState::Frozen
    );

    agent.actor_hysteresis.as_mut().unwrap().state = PlasticityState::Frozen;
    agent.critic_frozen_steps = 50;
    setup_for_wake(agent.actor_hysteresis.as_mut().unwrap());
    agent.process_hysteresis(1.0, 0.0);

    assert_eq!(
        agent.critic_hysteresis.as_ref().unwrap().state,
        PlasticityState::Plastic
    );
}

#[test]
fn actor_wakes_critic_disabled_when_false() {
    let mut cfg = default_config();
    cfg.actor_hysteresis = true;
    cfg.critic_hysteresis = true;
    cfg.actor_wakes_critic = false;
    let mut agent = PcActorCritic::new(CpuLinAlg::new(), cfg, 42).unwrap();

    agent.actor_hysteresis.as_mut().unwrap().state = PlasticityState::Frozen;
    agent.critic_hysteresis.as_mut().unwrap().state = PlasticityState::Frozen;
    agent.critic_frozen_steps = 2000;

    setup_for_wake(agent.actor_hysteresis.as_mut().unwrap());
    agent.process_hysteresis(1.0, 0.0);

    assert_eq!(
        agent.actor_hysteresis.as_ref().unwrap().state,
        PlasticityState::Plastic
    );
    assert_eq!(
        agent.critic_hysteresis.as_ref().unwrap().state,
        PlasticityState::Frozen
    );
}

#[test]
fn critic_frozen_steps_resets_on_plastic() {
    let mut cfg = default_config();
    cfg.critic_hysteresis = true;
    let mut agent = PcActorCritic::new(CpuLinAlg::new(), cfg, 42).unwrap();

    agent.critic_hysteresis.as_mut().unwrap().state = PlasticityState::Frozen;
    agent.critic_frozen_steps = 500;

    let critic_hyst = agent.critic_hysteresis.as_mut().unwrap();
    critic_hyst.slow.value = sc(0.05);
    critic_hyst.slow.k = 200;
    critic_hyst.fast.value = sc(0.06);
    critic_hyst.fast.k = 200;

    agent.process_hysteresis(0.0, 1.0);

    assert_eq!(
        agent.critic_hysteresis.as_ref().unwrap().state,
        PlasticityState::Plastic
    );
    assert_eq!(agent.critic_frozen_steps, 0);
}

#[test]
fn hysteresis_disabled_by_default() {
    let agent = make_agent();
    assert!(agent.actor_hysteresis.is_none());
    assert!(agent.critic_hysteresis.is_none());
    let scale = agent.surprise_scale(0.1);
    assert!(scale > 0.0);
}

#[test]
fn wake_fraction_zero_rejected() {
    let mut cfg = default_config();
    cfg.actor_hysteresis = true;
    cfg.actor_wake_fraction = 0.0;
    let result = PcActorCritic::new(CpuLinAlg::new(), cfg, 42);
    assert!(result.is_err());
    match result.unwrap_err() {
        PcError::ConfigValidation(msg) => assert!(msg.contains("wake_fraction")),
        e => panic!("expected ConfigValidation, got {:?}", e),
    }
}

#[test]
fn sleep_fraction_one_rejected() {
    let mut cfg = default_config();
    cfg.actor_hysteresis = true;
    cfg.actor_sleep_fraction = 1.0;
    let result = PcActorCritic::new(CpuLinAlg::new(), cfg, 42);
    assert!(result.is_err());
    match result.unwrap_err() {
        PcError::ConfigValidation(msg) => assert!(msg.contains("sleep_fraction")),
        e => panic!("expected ConfigValidation, got {:?}", e),
    }
}

#[test]
fn sleep_fraction_zero_rejected() {
    let mut cfg = default_config();
    cfg.critic_hysteresis = true;
    cfg.critic_sleep_fraction = 0.0;
    let result = PcActorCritic::new(CpuLinAlg::new(), cfg, 42);
    assert!(result.is_err());
    match result.unwrap_err() {
        PcError::ConfigValidation(msg) => assert!(msg.contains("sleep_fraction")),
        e => panic!("expected ConfigValidation, got {:?}", e),
    }
}

#[test]
fn td_error_buffer_feeds_critic_scale() {
    let mut cfg = default_config();
    cfg.critic_hysteresis = true;
    cfg.adaptive_surprise = true;
    cfg.surprise_buffer_size = 100;
    let mut agent = PcActorCritic::new(CpuLinAlg::new(), cfg, 42).unwrap();

    for i in 0..20 {
        agent.td_error_buffer.push_back(sc(0.1 * (i as f64)));
    }

    let mean: f64 = agent.td_errors().iter().sum::<f64>() / 20.0;
    let variance: f64 = agent
        .td_errors()
        .iter()
        .map(|&v| (v - mean) * (v - mean))
        .sum::<f64>()
        / 20.0;
    let std = variance.sqrt();
    let lo = (mean - 0.5 * std).max(0.0);
    let hi = mean + 1.5 * std;

    let scale_low = agent.critic_surprise_scale(lo);
    assert!((scale_low - agent.config.scale_floor).abs() < 1e-10);

    let scale_high = agent.critic_surprise_scale(hi);
    assert!((scale_high - agent.config.scale_ceil).abs() < 1e-10);

    let mid = (lo + hi) / 2.0;
    let scale_mid = agent.critic_surprise_scale(mid);
    let expected_mid = (agent.config.scale_floor + agent.config.scale_ceil) / 2.0;
    assert!((scale_mid - expected_mid).abs() < 1e-10);
}

#[test]
fn test_decay_1_0_is_noop() {
    let config = PcActorCriticConfig {
        consolidation_decay: 1.0,
        ..three_layer_config()
    };
    let agent: PcActorCritic = PcActorCritic::new(CpuLinAlg::new(), config, 42).unwrap();
    for &f in &agent.actor_decays() {
        assert!((f - 1.0).abs() < f64::EPSILON);
    }
}

#[test]
fn test_decay_0_5_three_layers() {
    let config = PcActorCriticConfig {
        consolidation_decay: 0.5,
        ..three_layer_config()
    };
    let agent: PcActorCritic = PcActorCritic::new(CpuLinAlg::new(), config, 42).unwrap();
    assert_eq!(agent.actor_decays().len(), 3);
    assert!((agent.actor_decays()[0] - 0.25).abs() < f64::EPSILON);
    assert!((agent.actor_decays()[1] - 0.5).abs() < f64::EPSILON);
    assert!((agent.actor_decays()[2] - 1.0).abs() < f64::EPSILON);
}

#[test]
fn test_decay_factors_precomputed() {
    let mut config = three_layer_config();
    config.actor.hidden_layers.push(LayerDef {
        size: 6,
        activation: Activation::Tanh,
    });
    config.consolidation_decay = 0.5;
    config.critic.input_size = 47;
    let agent: PcActorCritic = PcActorCritic::new(CpuLinAlg::new(), config, 42).unwrap();
    assert_eq!(agent.actor_decays().len(), 4);
    assert!((agent.actor_decays()[0] - 0.125).abs() < f64::EPSILON);
    assert!((agent.actor_decays()[1] - 0.25).abs() < f64::EPSILON);
    assert!((agent.actor_decays()[2] - 0.5).abs() < f64::EPSILON);
    assert!((agent.actor_decays()[3] - 1.0).abs() < f64::EPSILON);
}

#[test]
fn test_critic_independent_decay() {
    let config = PcActorCriticConfig {
        consolidation_decay: 0.5,
        critic_consolidation_decay: 0.8,
        ..three_layer_config()
    };
    let agent: PcActorCritic = PcActorCritic::new(CpuLinAlg::new(), config, 42).unwrap();
    assert_eq!(agent.actor_decays().len(), 3);
    assert!((agent.actor_decays()[0] - 0.25).abs() < f64::EPSILON);
    assert_eq!(agent.critic_decays().len(), 2);
    assert!((agent.critic_decays()[0] - 0.8).abs() < f64::EPSILON);
    assert!((agent.critic_decays()[1] - 1.0).abs() < f64::EPSILON);
}

#[test]
fn test_decay_single_hidden_layer_is_noop() {
    let config = PcActorCriticConfig {
        consolidation_decay: 0.5,
        ..default_config()
    };
    let agent: PcActorCritic = PcActorCritic::new(CpuLinAlg::new(), config, 42).unwrap();
    assert_eq!(agent.actor_decays().len(), 1);
    assert!((agent.actor_decays()[0] - 1.0).abs() < f64::EPSILON);
}

#[test]
fn test_decay_no_hidden_layers_safe() {
    let config = PcActorCriticConfig {
        actor: PcActorConfig {
            input_size: 9,
            hidden_layers: vec![],
            output_size: 9,
            output_activation: Activation::Linear,
            alpha: 0.0,
            tol: 0.01,
            min_steps: 1,
            max_steps: 1,
            lr_weights: 0.01,
            synchronous: true,
            temperature: 1.0,
            local_lambda: 1.0,
            residual: false,
            rezero_init: 0.001,
        },
        critic: MlpCriticConfig {
            input_size: 9,
            hidden_layers: vec![],
            output_activation: Activation::Linear,
            lr: 0.005,
        },
        consolidation_decay: 0.5,
        ..default_config()
    };
    let agent: PcActorCritic = PcActorCritic::new(CpuLinAlg::new(), config, 42).unwrap();
    assert!(agent.actor_decays().is_empty());
    assert!(agent.critic_decays().is_empty());
}

#[test]
fn test_consolidation_decay_zero_freezes_early_layers() {
    let config = PcActorCriticConfig {
        consolidation_decay: 0.0,
        ..three_layer_config()
    };
    let agent: PcActorCritic = PcActorCritic::new(CpuLinAlg::new(), config, 42).unwrap();
    assert!((agent.actor_decays()[0] - 0.0).abs() < f64::EPSILON);
    assert!((agent.actor_decays()[1] - 0.0).abs() < f64::EPSILON);
    assert!((agent.actor_decays()[2] - 1.0).abs() < f64::EPSILON);
}

#[test]
fn test_adaptive_overrides_fixed_decay() {
    let config = PcActorCriticConfig {
        consolidation_decay: 0.5,
        adaptive_consolidation: true,
        ..three_layer_config()
    };
    let agent: PcActorCritic = PcActorCritic::new(CpuLinAlg::new(), config, 42).unwrap();
    assert_eq!(agent.layer_errors().len(), 3);
    assert!(agent.config.adaptive_consolidation);
}

#[test]
fn test_m3b_error_ema_uses_consolidation_ema_beta() {
    let config = PcActorCriticConfig {
        adaptive_consolidation: true,
        consolidation_ema_beta: 0.9,
        ..three_layer_config()
    };
    let agent: PcActorCritic = PcActorCritic::new(CpuLinAlg::new(), config, 42).unwrap();
    assert!((agent.config.consolidation_ema_beta - 0.9).abs() < f64::EPSILON);
    for &e in &agent.layer_errors() {
        assert!((e - 0.0).abs() < f64::EPSILON);
    }
}

#[test]
fn test_decay_out_of_range_rejected() {
    let config = PcActorCriticConfig {
        consolidation_decay: 1.5,
        ..three_layer_config()
    };
    let result = PcActorCritic::new(CpuLinAlg::new(), config, 42);
    assert!(result.is_err());
    let err = result.unwrap_err().to_string();
    assert!(
        err.contains("consolidation_decay"),
        "error should mention consolidation_decay: {err:?}"
    );

    let config2 = PcActorCriticConfig {
        consolidation_decay: -0.1,
        ..three_layer_config()
    };
    let result2 = PcActorCritic::new(CpuLinAlg::new(), config2, 42);
    assert!(result2.is_err());
}

#[test]
fn test_critic_decay_out_of_range_rejected() {
    let config = PcActorCriticConfig {
        critic_consolidation_decay: 2.0,
        ..three_layer_config()
    };
    let result = PcActorCritic::new(CpuLinAlg::new(), config, 42);
    assert!(result.is_err());
    let err = result.unwrap_err().to_string();
    assert!(
        err.contains("critic_consolidation_decay"),
        "error should mention critic_consolidation_decay: {err:?}"
    );
}

#[test]
fn test_adaptive_sigmoid_steepness_positive_required() {
    let config = PcActorCriticConfig {
        adaptive_consolidation: true,
        consolidation_sigmoid_k: -1.0,
        ..three_layer_config()
    };
    let result = PcActorCritic::new(CpuLinAlg::new(), config, 42);
    assert!(result.is_err());
    let err = result.unwrap_err().to_string();
    assert!(
        err.contains("consolidation_sigmoid_k"),
        "error should mention consolidation_sigmoid_k: {err:?}"
    );
}

#[test]
fn test_consolidation_ema_beta_out_of_range_rejected() {
    let config = PcActorCriticConfig {
        adaptive_consolidation: true,
        consolidation_ema_beta: 0.0,
        ..three_layer_config()
    };
    let result = PcActorCritic::new(CpuLinAlg::new(), config, 42);
    assert!(result.is_err());

    let config2 = PcActorCriticConfig {
        adaptive_consolidation: true,
        consolidation_ema_beta: 1.0,
        ..three_layer_config()
    };
    let result2 = PcActorCritic::new(CpuLinAlg::new(), config2, 42);
    assert!(result2.is_err());
}

#[test]
fn test_consolidation_error_threshold_nonpositive_rejected() {
    let config = PcActorCriticConfig {
        adaptive_consolidation: true,
        consolidation_error_threshold: 0.0,
        ..three_layer_config()
    };
    let result = PcActorCritic::new(CpuLinAlg::new(), config, 42);
    assert!(result.is_err());

    let config2 = PcActorCriticConfig {
        adaptive_consolidation: true,
        consolidation_error_threshold: -0.1,
        ..three_layer_config()
    };
    let result2 = PcActorCritic::new(CpuLinAlg::new(), config2, 42);
    assert!(result2.is_err());
}

#[test]
fn test_gradient_extraction_spike_trivial_layer() {
    let backend = CpuLinAlg::new();
    let mut config = default_config();
    config.ewc_lambda = 1.0;
    let mut agent: PcActorCritic = PcActorCritic::new(backend, config, 42).unwrap();

    let state = vec![1.0, -1.0, 0.0, 0.5, -0.5, 1.0, -1.0, 0.0, 0.5];
    let _a = agent.step(&state, 0.0, false);
    let state2 = vec![0.5, 0.5, 0.5, 0.5, 0.5, 0.5, 0.5, 0.5, 0.5];
    let _a2 = agent.step(&state2, 1.0, true);

    assert!(!agent.actor_fisher.is_empty());
    let f = &agent.actor_fisher[0];
    let rows = CpuLinAlg::new().mat_rows(&f.f_ema_weights);
    let cols = CpuLinAlg::new().mat_cols(&f.f_ema_weights);
    let mut has_nonzero = false;
    for r in 0..rows {
        for c in 0..cols {
            if CpuLinAlg::new().mat_get(&f.f_ema_weights, r, c).abs() > 0.0 {
                has_nonzero = true;
            }
        }
    }
    assert!(
        has_nonzero,
        "F_ema should have non-zero entries after learning"
    );
}

#[test]
fn test_fisher_ema_accumulates_during_plastic() {
    let mut config = default_config();
    config.ewc_lambda = 1.0;
    config.fisher_ema_beta = 0.99;
    let mut agent: PcActorCritic = PcActorCritic::new(CpuLinAlg::new(), config, 42).unwrap();

    let state1 = vec![1.0, -1.0, 0.0, 0.5, -0.5, 1.0, -1.0, 0.0, 0.5];
    agent.step(&state1, 0.0, false);
    let state2 = vec![0.5, 0.5, -0.5, 0.0, 1.0, -1.0, 0.5, -0.5, 0.0];
    agent.step(&state2, 1.0, false);
    let state3 = vec![-0.5, 0.0, 1.0, -1.0, 0.5, 0.5, 0.0, 1.0, -0.5];
    agent.step(&state3, -1.0, true);

    assert!(!agent.actor_fisher.is_empty());
    let f = &agent.actor_fisher[0];
    let rows = CpuLinAlg::new().mat_rows(&f.f_ema_weights);
    let cols = CpuLinAlg::new().mat_cols(&f.f_ema_weights);
    let mut sum = 0.0;
    for r in 0..rows {
        for c in 0..cols {
            sum += CpuLinAlg::new().mat_get(&f.f_ema_weights, r, c);
        }
    }
    assert!(
        sum > 0.0,
        "F_ema should have positive entries (squared gradients)"
    );
}

#[test]
fn test_fisher_ema_bounded_by_grad_clip_squared() {
    let mut config = default_config();
    config.ewc_lambda = 1.0;
    config.fisher_ema_beta = 0.99;
    let mut agent: PcActorCritic = PcActorCritic::new(CpuLinAlg::new(), config, 42).unwrap();

    for i in 0..200 {
        let state: Vec<f64> = (0..9).map(|j| ((i + j) as f64 * 0.3).sin()).collect();
        agent.step(&state, if i % 2 == 0 { 1.0 } else { -1.0 }, i == 199);
    }

    let max_bound = 25.0 / (1.0 - 0.99);
    for fisher in &agent.actor_fisher {
        let rows = CpuLinAlg::new().mat_rows(&fisher.f_ema_weights);
        let cols = CpuLinAlg::new().mat_cols(&fisher.f_ema_weights);
        for r in 0..rows {
            for c in 0..cols {
                let val = CpuLinAlg::new().mat_get(&fisher.f_ema_weights, r, c);
                assert!(
                    val <= max_bound + 1e-6,
                    "F_ema element {} exceeds bound {}",
                    val,
                    max_bound
                );
            }
        }
    }
}

#[test]
fn test_fisher_decay_on_reliable_phase() {
    let mut config = ewc_config();
    config.fisher_decay = 0.9;
    let mut agent: PcActorCritic = PcActorCritic::new(CpuLinAlg::new(), config, 42).unwrap();

    let rows = CpuLinAlg::new()
        .mat_rows(&agent.actor_fisher[0].f_total_weights);
    let cols = CpuLinAlg::new()
        .mat_cols(&agent.actor_fisher[0].f_total_weights);
    for r in 0..rows {
        for c in 0..cols {
            CpuLinAlg::new()
                .mat_set(&mut agent.actor_fisher[0].f_total_weights, r, c, 10.0);
        }
    }
    agent.actor_last_phase_reliable = true;

    agent.actor_hysteresis.as_mut().unwrap().state = PlasticityState::Frozen;

    let hyst = agent.actor_hysteresis.as_mut().unwrap();
    hyst.fast.value = sc(1.0);
    hyst.slow.value = sc(0.1);
    agent.handle_fisher_wake(true);

    for r in 0..rows {
        for c in 0..cols {
            let val = CpuLinAlg::new()
                .mat_get(&agent.actor_fisher[0].f_total_weights, r, c);
            assert!(
                (val - 9.0).abs() < 1e-10,
                "F_total should be 10.0 * 0.9 = 9.0, got {}",
                val
            );
        }
    }
}

#[test]
fn test_fisher_no_decay_after_unreliable_phase() {
    let mut config = ewc_config();
    config.fisher_decay = 0.9;
    let mut agent: PcActorCritic = PcActorCritic::new(CpuLinAlg::new(), config, 42).unwrap();

    let rows = CpuLinAlg::new()
        .mat_rows(&agent.actor_fisher[0].f_total_weights);
    let cols = CpuLinAlg::new()
        .mat_cols(&agent.actor_fisher[0].f_total_weights);
    for r in 0..rows {
        for c in 0..cols {
            CpuLinAlg::new()
                .mat_set(&mut agent.actor_fisher[0].f_total_weights, r, c, 10.0);
        }
    }
    agent.actor_last_phase_reliable = false;

    agent.handle_fisher_wake(true);

    for r in 0..rows {
        for c in 0..cols {
            let val = CpuLinAlg::new()
                .mat_get(&agent.actor_fisher[0].f_total_weights, r, c);
            assert!(
                (val - 10.0).abs() < 1e-10,
                "F_total should be unchanged at 10.0, got {}",
                val
            );
        }
    }
}

#[test]
fn test_fisher_short_phase_discards_fema() {
    let mut config = ewc_config();
    config.fisher_ema_beta = 0.99;
    let mut agent: PcActorCritic = PcActorCritic::new(CpuLinAlg::new(), config, 42).unwrap();

    let rows = CpuLinAlg::new().mat_rows(&agent.actor_fisher[0].f_ema_weights);
    let cols = CpuLinAlg::new().mat_cols(&agent.actor_fisher[0].f_ema_weights);
    for r in 0..rows {
        for c in 0..cols {
            CpuLinAlg::new()
                .mat_set(&mut agent.actor_fisher[0].f_ema_weights, r, c, 5.0);
        }
    }
    agent.actor_plastic_step_counter = 50;

    agent.handle_fisher_sleep(true);

    for r in 0..rows {
        for c in 0..cols {
            let val = CpuLinAlg::new()
                .mat_get(&agent.actor_fisher[0].f_total_weights, r, c);
            assert!(
                val.abs() < 1e-10,
                "F_total should be zero (short phase), got {}",
                val
            );
        }
    }
    assert!(!agent.actor_last_phase_reliable);
}

#[test]
fn test_fisher_reliable_phase_adds_fema() {
    let mut config = ewc_config();
    config.fisher_ema_beta = 0.99;
    let mut agent: PcActorCritic = PcActorCritic::new(CpuLinAlg::new(), config, 42).unwrap();

    let rows = CpuLinAlg::new().mat_rows(&agent.actor_fisher[0].f_ema_weights);
    let cols = CpuLinAlg::new().mat_cols(&agent.actor_fisher[0].f_ema_weights);
    for r in 0..rows {
        for c in 0..cols {
            CpuLinAlg::new()
                .mat_set(&mut agent.actor_fisher[0].f_ema_weights, r, c, 5.0);
        }
    }
    agent.actor_plastic_step_counter = 150;

    agent.handle_fisher_sleep(true);

    for r in 0..rows {
        for c in 0..cols {
            let val = CpuLinAlg::new()
                .mat_get(&agent.actor_fisher[0].f_total_weights, r, c);
            assert!(
                (val - 5.0).abs() < 1e-10,
                "F_total should be 5.0, got {}",
                val
            );
        }
    }
    assert!(agent.actor_last_phase_reliable);
}

#[test]
fn test_fisher_preserved_through_oscillations() {
    let mut config = ewc_config();
    config.fisher_ema_beta = 0.99;
    let mut agent: PcActorCritic = PcActorCritic::new(CpuLinAlg::new(), config, 42).unwrap();

    let rows = CpuLinAlg::new()
        .mat_rows(&agent.actor_fisher[0].f_total_weights);
    let cols = CpuLinAlg::new()
        .mat_cols(&agent.actor_fisher[0].f_total_weights);
    for r in 0..rows {
        for c in 0..cols {
            CpuLinAlg::new()
                .mat_set(&mut agent.actor_fisher[0].f_total_weights, r, c, 42.0);
        }
    }

    for _ in 0..5 {
        agent.actor_plastic_step_counter = 30;
        agent.handle_fisher_sleep(true);
        agent.handle_fisher_wake(true);
    }

    for r in 0..rows {
        for c in 0..cols {
            let val = CpuLinAlg::new()
                .mat_get(&agent.actor_fisher[0].f_total_weights, r, c);
            assert!(
                (val - 42.0).abs() < 1e-10,
                "F_total should be preserved at 42.0, got {}",
                val
            );
        }
    }
}

#[test]
fn test_ewc_correction_direction() {
    let mut config = default_config();
    config.ewc_lambda = 1.0;
    let mut agent: PcActorCritic = PcActorCritic::new(CpuLinAlg::new(), config, 42).unwrap();

    let rows = CpuLinAlg::new().mat_rows(&agent.actor.layers[0].weights);
    let cols = CpuLinAlg::new().mat_cols(&agent.actor.layers[0].weights);

    for r in 0..rows {
        for c in 0..cols {
            CpuLinAlg::new()
                .mat_set(&mut agent.actor_fisher[0].f_total_weights, r, c, 1.0);
        }
    }

    agent.actor_fisher[0].theta_snapshot_weights = Some(agent.actor.layers[0].weights.clone());
    agent.actor_fisher[0].theta_snapshot_bias = Some(agent.actor.layers[0].bias.clone());

    let snapshot_val = CpuLinAlg::new().mat_get(&agent.actor.layers[0].weights, 0, 0);
    CpuLinAlg::new()
        .mat_set(&mut agent.actor.layers[0].weights, 0, 0, snapshot_val + 0.5);
    let weight_before = CpuLinAlg::new().mat_get(&agent.actor.layers[0].weights, 0, 0);

    let state1 = vec![1.0, -1.0, 0.0, 0.5, -0.5, 1.0, -1.0, 0.0, 0.5];
    agent.step(&state1, 0.0, false);
    let state2 = vec![0.5, 0.5, -0.5, 0.0, 1.0, -1.0, 0.5, -0.5, 0.0];
    agent.step(&state2, 1.0, true);

    let weight_after = CpuLinAlg::new().mat_get(&agent.actor.layers[0].weights, 0, 0);
    let deviation_before = (weight_before - snapshot_val).abs();
    let deviation_after = (weight_after - snapshot_val).abs();
    assert!(
        deviation_after < deviation_before,
        "EWC should pull weights toward snapshot: before={}, after={}",
        deviation_before,
        deviation_after
    );
}

#[test]
fn test_ewc_uses_pre_update_theta() {
    let mut config = default_config();
    config.ewc_lambda = 10.0;
    let mut agent: PcActorCritic = PcActorCritic::new(CpuLinAlg::new(), config, 42).unwrap();

    let rows = CpuLinAlg::new().mat_rows(&agent.actor.layers[0].weights);
    let cols = CpuLinAlg::new().mat_cols(&agent.actor.layers[0].weights);
    for r in 0..rows {
        for c in 0..cols {
            CpuLinAlg::new()
                .mat_set(&mut agent.actor_fisher[0].f_total_weights, r, c, 1.0);
        }
    }
    agent.actor_fisher[0].theta_snapshot_weights = Some(agent.actor.layers[0].weights.clone());
    agent.actor_fisher[0].theta_snapshot_bias = Some(agent.actor.layers[0].bias.clone());

    let w_pre = CpuLinAlg::new().mat_get(&agent.actor.layers[0].weights, 0, 0);

    let state1 = vec![1.0; 9];
    agent.step(&state1, 0.0, false);
    let state2 = vec![0.5; 9];
    agent.step(&state2, 1.0, true);

    let w_post = CpuLinAlg::new().mat_get(&agent.actor.layers[0].weights, 0, 0);
    assert!(
        (w_post - w_pre).abs() > 1e-12,
        "Weights should change from backward pass"
    );
}

#[test]
fn test_ewc_weight_clip_applied_after_correction() {
    let mut config = default_config();
    config.ewc_lambda = 1000.0;
    let mut agent: PcActorCritic = PcActorCritic::new(CpuLinAlg::new(), config, 42).unwrap();

    let rows = CpuLinAlg::new().mat_rows(&agent.actor.layers[0].weights);
    let cols = CpuLinAlg::new().mat_cols(&agent.actor.layers[0].weights);

    for r in 0..rows {
        for c in 0..cols {
            CpuLinAlg::new()
                .mat_set(&mut agent.actor_fisher[0].f_total_weights, r, c, 100.0);
        }
    }
    let mut snapshot = agent.actor.layers[0].weights.clone();
    for r in 0..rows {
        for c in 0..cols {
            CpuLinAlg::new().mat_set(&mut snapshot, r, c, -100.0);
        }
    }
    agent.actor_fisher[0].theta_snapshot_weights = Some(snapshot);
    agent.actor_fisher[0].theta_snapshot_bias = Some(agent.actor.layers[0].bias.clone());

    let state1 = vec![1.0; 9];
    agent.step(&state1, 0.0, false);
    let state2 = vec![0.5; 9];
    agent.step(&state2, 1.0, true);

    for r in 0..rows {
        for c in 0..cols {
            let val = CpuLinAlg::new().mat_get(&agent.actor.layers[0].weights, r, c);
            assert!(
                (-5.0 - 1e-10..=5.0 + 1e-10).contains(&val),
                "Weight at ({},{}) = {} should be clipped to [-5.0, 5.0]",
                r,
                c,
                val
            );
        }
    }
}

#[test]
fn test_ewc_lambda_zero_is_noop() {
    let config_no_ewc = default_config();
    let mut agent_no_ewc: PcActorCritic =
        PcActorCritic::new(CpuLinAlg::new(), config_no_ewc, 42).unwrap();

    let mut config_ewc = default_config();
    config_ewc.ewc_lambda = 0.0;
    let mut agent_ewc: PcActorCritic =
        PcActorCritic::new(CpuLinAlg::new(), config_ewc, 42).unwrap();

    let state1 = vec![1.0, -1.0, 0.0, 0.5, -0.5, 1.0, -1.0, 0.0, 0.5];
    let state2 = vec![0.5, 0.5, -0.5, 0.0, 1.0, -1.0, 0.5, -0.5, 0.0];

    agent_no_ewc.step(&state1, 0.0, false);
    agent_no_ewc.step(&state2, 1.0, true);

    agent_ewc.step(&state1, 0.0, false);
    agent_ewc.step(&state2, 1.0, true);

    let rows = CpuLinAlg::new()
        .mat_rows(&agent_no_ewc.actor.layers[0].weights);
    let cols = CpuLinAlg::new()
        .mat_cols(&agent_no_ewc.actor.layers[0].weights);
    for r in 0..rows {
        for c in 0..cols {
            let v1 = CpuLinAlg::new()
                .mat_get(&agent_no_ewc.actor.layers[0].weights, r, c);
            let v2 = CpuLinAlg::new()
                .mat_get(&agent_ewc.actor.layers[0].weights, r, c);
            assert!(
                (v1 - v2).abs() < 1e-12,
                "Weights differ at ({},{}): {} vs {}",
                r,
                c,
                v1,
                v2
            );
        }
    }
}

#[test]
fn test_ewc_propagated_gradient_clean() {
    let mut config_ewc = default_config();
    config_ewc.ewc_lambda = 5.0;
    let mut agent_ewc: PcActorCritic =
        PcActorCritic::new(CpuLinAlg::new(), config_ewc, 42).unwrap();

    let n_layers = agent_ewc.actor.layers.len();
    assert!(n_layers >= 2, "Need at least 2 layers");
    let rows1 = CpuLinAlg::new()
        .mat_rows(&agent_ewc.actor.layers[n_layers - 1].weights);
    let cols1 = CpuLinAlg::new()
        .mat_cols(&agent_ewc.actor.layers[n_layers - 1].weights);
    for r in 0..rows1 {
        for c in 0..cols1 {
            CpuLinAlg::new().mat_set(
                &mut agent_ewc.actor_fisher[n_layers - 1].f_total_weights,
                r,
                c,
                1.0,
            );
        }
    }
    agent_ewc.actor_fisher[n_layers - 1].theta_snapshot_weights =
        Some(agent_ewc.actor.layers[n_layers - 1].weights.clone());
    agent_ewc.actor_fisher[n_layers - 1].theta_snapshot_bias =
        Some(agent_ewc.actor.layers[n_layers - 1].bias.clone());

    let config_ref = default_config();
    let mut agent_ref: PcActorCritic =
        PcActorCritic::new(CpuLinAlg::new(), config_ref, 42).unwrap();

    let h_rows = CpuLinAlg::new()
        .mat_rows(&agent_ewc.actor.layers[0].weights);
    let h_cols = CpuLinAlg::new()
        .mat_cols(&agent_ewc.actor.layers[0].weights);
    let mut h_before_ewc = vec![0.0; h_rows * h_cols];
    let mut h_before_ref = vec![0.0; h_rows * h_cols];
    for r in 0..h_rows {
        for c in 0..h_cols {
            h_before_ewc[r * h_cols + c] =
                CpuLinAlg::new()
                    .mat_get(&agent_ewc.actor.layers[0].weights, r, c);
            h_before_ref[r * h_cols + c] =
                CpuLinAlg::new()
                    .mat_get(&agent_ref.actor.layers[0].weights, r, c);
        }
    }

    let state1 = vec![1.0; 9];
    let state2 = vec![0.5; 9];
    agent_ewc.step(&state1, 0.0, false);
    agent_ewc.step(&state2, 1.0, true);
    agent_ref.step(&state1, 0.0, false);
    agent_ref.step(&state2, 1.0, true);

    for r in 0..h_rows {
        for c in 0..h_cols {
            let delta_ewc = CpuLinAlg::new()
                .mat_get(&agent_ewc.actor.layers[0].weights, r, c)
                - h_before_ewc[r * h_cols + c];
            let delta_ref = CpuLinAlg::new()
                .mat_get(&agent_ref.actor.layers[0].weights, r, c)
                - h_before_ref[r * h_cols + c];
            assert!(
                (delta_ewc - delta_ref).abs() < 1e-10,
                "Hidden layer delta differs at ({},{}): ewc={}, ref={}",
                r,
                c,
                delta_ewc,
                delta_ref
            );
        }
    }
}

#[test]
fn test_fisher_snapshot_includes_all_trainable_params() {
    let config = ewc_config();
    let mut agent: PcActorCritic = PcActorCritic::new(CpuLinAlg::new(), config, 42).unwrap();

    agent.actor_plastic_step_counter = 200;
    agent.handle_fisher_sleep(true);

    for (i, fisher) in agent.actor_fisher.iter().enumerate() {
        assert!(
            fisher.theta_snapshot_weights.is_some(),
            "Layer {} missing weight snapshot",
            i
        );
        assert!(
            fisher.theta_snapshot_bias.is_some(),
            "Layer {} missing bias snapshot",
            i
        );
    }
}

#[test]
fn test_ewc_disabled_by_default() {
    let agent = make_agent();
    assert!(
        agent.actor_fisher.is_empty(),
        "No Fisher state when ewc_lambda=0"
    );
    assert!(
        agent.critic_fisher.is_empty(),
        "No Fisher state when ewc_lambda=0"
    );
}

#[test]
fn test_fisher_decay_out_of_range_rejected() {
    let config = PcActorCriticConfig {
        ewc_lambda: 1.0,
        fisher_decay: 1.5,
        ..default_config()
    };
    let result = PcActorCritic::new(CpuLinAlg::new(), config, 42);
    assert!(result.is_err(), "fisher_decay > 1.0 should be rejected");
    let err = result.unwrap_err().to_string();
    assert!(
        err.contains("fisher_decay"),
        "Error should mention fisher_decay: {err:?}"
    );

    let config2 = PcActorCriticConfig {
        ewc_lambda: 1.0,
        fisher_decay: -0.1,
        ..default_config()
    };
    let result2 = PcActorCritic::new(CpuLinAlg::new(), config2, 42);
    assert!(result2.is_err(), "fisher_decay < 0.0 should be rejected");
}

#[test]
fn test_fisher_ema_beta_out_of_range_rejected() {
    let config = PcActorCriticConfig {
        ewc_lambda: 1.0,
        fisher_ema_beta: 0.0,
        ..default_config()
    };
    let result = PcActorCritic::new(CpuLinAlg::new(), config, 42);
    assert!(result.is_err(), "fisher_ema_beta=0.0 should be rejected");
    let err = result.unwrap_err().to_string();
    assert!(
        err.contains("fisher_ema_beta"),
        "Error should mention fisher_ema_beta: {err:?}"
    );

    let config2 = PcActorCriticConfig {
        ewc_lambda: 1.0,
        fisher_ema_beta: 1.0,
        ..default_config()
    };
    let result2 = PcActorCritic::new(CpuLinAlg::new(), config2, 42);
    assert!(result2.is_err(), "fisher_ema_beta=1.0 should be rejected");
}

#[test]
fn test_ewc_lambda_negative_rejected() {
    let config = PcActorCriticConfig {
        ewc_lambda: -0.1,
        ..default_config()
    };
    let result = PcActorCritic::new(CpuLinAlg::new(), config, 42);
    assert!(result.is_err(), "Negative ewc_lambda should be rejected");
    let err = result.unwrap_err().to_string();
    assert!(
        err.contains("ewc_lambda"),
        "Error should mention ewc_lambda: {err:?}"
    );
}

#[test]
fn test_logits_reversal_off_by_default() {
    let config = default_config();
    assert!(!config.logits_reversal);
}

#[test]
fn test_logits_reversal_separate_from_learning() {
    let mut config_rev = default_config();
    config_rev.ewc_lambda = 1.0;
    config_rev.logits_reversal = true;
    let mut agent_rev: PcActorCritic =
        PcActorCritic::new(CpuLinAlg::new(), config_rev, 42).unwrap();

    let mut config_no_rev = default_config();
    config_no_rev.ewc_lambda = 1.0;
    config_no_rev.logits_reversal = false;
    let mut agent_no_rev: PcActorCritic =
        PcActorCritic::new(CpuLinAlg::new(), config_no_rev, 42).unwrap();

    let state1 = vec![1.0; 9];
    let state2 = vec![0.5; 9];
    agent_rev.step(&state1, 0.0, false);
    agent_rev.step(&state2, 1.0, true);
    agent_no_rev.step(&state1, 0.0, false);
    agent_no_rev.step(&state2, 1.0, true);

    let f_rev = &agent_rev.actor_fisher[0];
    let f_no_rev = &agent_no_rev.actor_fisher[0];
    let rows = CpuLinAlg::new().mat_rows(&f_rev.f_ema_weights);
    let cols = CpuLinAlg::new().mat_cols(&f_rev.f_ema_weights);
    let mut differs = false;
    for r in 0..rows {
        for c in 0..cols {
            let v1 = CpuLinAlg::new().mat_get(&f_rev.f_ema_weights, r, c);
            let v2 = CpuLinAlg::new().mat_get(&f_no_rev.f_ema_weights, r, c);
            if (v1 - v2).abs() > 1e-10 {
                differs = true;
            }
        }
    }
    assert!(
        differs,
        "Fisher EMA should differ between reversal and non-reversal modes"
    );
}

#[test]
fn test_logits_reversal_read_only_pass() {
    let mut config = default_config();
    config.ewc_lambda = 1.0;
    config.logits_reversal = true;
    let mut agent: PcActorCritic = PcActorCritic::new(CpuLinAlg::new(), config, 42).unwrap();

    let rows = CpuLinAlg::new().mat_rows(&agent.actor.layers[0].weights);
    let cols = CpuLinAlg::new().mat_cols(&agent.actor.layers[0].weights);
    let mut w_before = vec![0.0; rows * cols];
    for r in 0..rows {
        for c in 0..cols {
            w_before[r * cols + c] =
                CpuLinAlg::new().mat_get(&agent.actor.layers[0].weights, r, c);
        }
    }

    let state1 = vec![1.0; 9];
    agent.step(&state1, 0.0, false);
    let state2 = vec![0.5; 9];
    agent.step(&state2, 1.0, true);

    assert!(!agent.actor_fisher.is_empty());
    let f = &agent.actor_fisher[0];
    let mut has_nonzero = false;
    for r in 0..rows {
        for c in 0..cols {
            if CpuLinAlg::new().mat_get(&f.f_ema_weights, r, c) > 0.0 {
                has_nonzero = true;
            }
        }
    }
    assert!(
        has_nonzero,
        "F_ema should be updated from reversed logits pass"
    );
}

#[test]
fn test_m3_layer_decay_combined_with_m4_ewc() {
    let mut config = three_layer_config();
    config.consolidation_decay = 0.5;
    config.ewc_lambda = 1.0;
    let mut agent: PcActorCritic = PcActorCritic::new(CpuLinAlg::new(), config, 42).unwrap();

    assert_eq!(agent.actor_decays().len(), 3);
    assert!(!agent.actor_fisher.is_empty());

    let n_layers = agent.actor.layers.len();
    let out_rows = CpuLinAlg::new()
        .mat_rows(&agent.actor.layers[n_layers - 1].weights);
    let out_cols = CpuLinAlg::new()
        .mat_cols(&agent.actor.layers[n_layers - 1].weights);
    for r in 0..out_rows {
        for c in 0..out_cols {
            CpuLinAlg::new().mat_set(
                &mut agent.actor_fisher[n_layers - 1].f_total_weights,
                r,
                c,
                1.0,
            );
        }
    }
    agent.actor_fisher[n_layers - 1].theta_snapshot_weights =
        Some(agent.actor.layers[n_layers - 1].weights.clone());
    agent.actor_fisher[n_layers - 1].theta_snapshot_bias =
        Some(agent.actor.layers[n_layers - 1].bias.clone());

    let state1 = vec![1.0, -1.0, 0.0, 0.5, -0.5, 1.0, -1.0, 0.0, 0.5];
    agent.step(&state1, 0.0, false);
    let state2 = vec![0.5; 9];
    agent.step(&state2, 1.0, true);
}

#[test]
fn test_hysteresis_transition_with_logits_reversal() {
    let mut config = ewc_config();
    config.logits_reversal = true;
    let mut agent: PcActorCritic = PcActorCritic::new(CpuLinAlg::new(), config, 42).unwrap();

    for i in 0..50 {
        let state: Vec<f64> = (0..9).map(|j| ((i + j) as f64 * 0.3).sin()).collect();
        agent.step(&state, if i % 3 == 0 { 1.0 } else { 0.0 }, i == 49);
    }
}

#[test]
fn test_hysteresis_frozen_suppresses_ewc() {
    let mut config = ewc_config();
    config.scale_floor = 0.0;
    config.ewc_lambda = 10.0;
    let mut agent: PcActorCritic = PcActorCritic::new(CpuLinAlg::new(), config, 42).unwrap();

    agent.actor_hysteresis.as_mut().unwrap().state = PlasticityState::Frozen;

    let rows = CpuLinAlg::new().mat_rows(&agent.actor.layers[0].weights);
    let cols = CpuLinAlg::new().mat_cols(&agent.actor.layers[0].weights);
    for r in 0..rows {
        for c in 0..cols {
            CpuLinAlg::new()
                .mat_set(&mut agent.actor_fisher[0].f_total_weights, r, c, 1.0);
        }
    }
    agent.actor_fisher[0].theta_snapshot_weights = Some(agent.actor.layers[0].weights.clone());
    agent.actor_fisher[0].theta_snapshot_bias = Some(agent.actor.layers[0].bias.clone());

    let w_before = CpuLinAlg::new().mat_get(&agent.actor.layers[0].weights, 0, 0);

    let state1 = vec![1.0; 9];
    agent.step(&state1, 0.0, false);
    let state2 = vec![0.5; 9];
    agent.step(&state2, 1.0, true);

    let w_after = CpuLinAlg::new().mat_get(&agent.actor.layers[0].weights, 0, 0);
    assert!(
        (w_after - w_before).abs() < 1e-10,
        "FROZEN actor with scale_floor=0 should not change weights"
    );
}

#[test]
fn test_fisher_decay_one_no_erasure() {
    let mut config = ewc_config();
    config.fisher_decay = 1.0;
    let mut agent: PcActorCritic = PcActorCritic::new(CpuLinAlg::new(), config, 42).unwrap();

    let rows = CpuLinAlg::new()
        .mat_rows(&agent.actor_fisher[0].f_total_weights);
    let cols = CpuLinAlg::new()
        .mat_cols(&agent.actor_fisher[0].f_total_weights);
    for r in 0..rows {
        for c in 0..cols {
            CpuLinAlg::new()
                .mat_set(&mut agent.actor_fisher[0].f_total_weights, r, c, 10.0);
        }
    }
    agent.actor_last_phase_reliable = true;
    agent.handle_fisher_wake(true);

    for r in 0..rows {
        for c in 0..cols {
            let val = CpuLinAlg::new()
                .mat_get(&agent.actor_fisher[0].f_total_weights, r, c);
            assert!(
                (val - 10.0).abs() < 1e-10,
                "fisher_decay=1.0 should preserve F_total, got {}",
                val
            );
        }
    }
}

#[test]
fn test_crossover_resets_all_cl_state() {
    let mut config = ewc_config();
    config.adaptive_consolidation = true;
    config.consolidation_ema_beta = 0.99;
    config.consolidation_sigmoid_k = 10.0;
    config.consolidation_error_threshold = 0.05;

    let mut parent_a: PcActorCritic =
        PcActorCritic::new(CpuLinAlg::new(), config.clone(), 42).unwrap();
    let mut parent_b: PcActorCritic =
        PcActorCritic::new(CpuLinAlg::new(), config.clone(), 123).unwrap();

    let state1 = vec![1.0, -1.0, 0.0, 0.5, -0.5, 1.0, -1.0, 0.0, 0.5];
    let state2 = vec![0.5, 0.5, -0.5, 0.0, 1.0, -1.0, 0.5, -0.5, 0.0];
    for _ in 0..5 {
        parent_a.step(&state1, 0.0, false);
        parent_a.step(&state2, 1.0, true);
        parent_b.step(&state1, 0.0, false);
        parent_b.step(&state2, -1.0, true);
    }

    if let Some(ref mut h) = parent_a.actor_hysteresis {
        h.state = PlasticityState::Frozen;
    }
    if let Some(ref mut h) = parent_a.critic_hysteresis {
        h.state = PlasticityState::Frozen;
    }
    parent_a.critic_frozen_steps = 50;

    let rows = CpuLinAlg::new()
        .mat_rows(&parent_a.actor_fisher[0].f_total_weights);
    let cols = CpuLinAlg::new()
        .mat_cols(&parent_a.actor_fisher[0].f_total_weights);
    for r in 0..rows {
        for c in 0..cols {
            CpuLinAlg::new()
                .mat_set(&mut parent_a.actor_fisher[0].f_total_weights, r, c, 1.0);
        }
    }

    parent_a.step(&state1, 0.0, false);

    let (ac_a, cc_a) = build_caches_for_agent(&mut parent_a, 50);
    let (ac_b, cc_b) = build_caches_for_agent(&mut parent_b, 50);

    let child: PcActorCritic = PcActorCritic::crossover(
        &parent_a, &parent_b, &ac_a, &ac_b, &cc_a, &cc_b, 0.5, config, 99,
    )
    .unwrap();

    assert!(child.actor_hysteresis.is_none());
    assert!(child.critic_hysteresis.is_none());
    assert_eq!(child.actor_plastic_step_counter, 0);
    assert_eq!(child.critic_plastic_step_counter, 0);
    assert_eq!(child.critic_frozen_steps, 0);
    assert_eq!(child.actor_frozen_steps, 0);
    assert!(child.surprises().is_empty());
    assert!(child.td_errors().is_empty());
    assert!(child.state_prev.is_none());
    assert!(child.action_prev.is_none());
    assert!(child.infer_prev.is_none());
    assert!(child.valid_actions_prev.is_none());
    assert!(!child.actor_last_phase_reliable);
    assert!(!child.critic_last_phase_reliable);

    assert!(
        child.actor_fisher.is_empty(),
        "Child actor_fisher should be empty"
    );
    assert!(
        child.critic_fisher.is_empty(),
        "Child critic_fisher should be empty"
    );

    for ema in &child.layer_errors() {
        assert!(
            (*ema).abs() < f64::EPSILON,
            "Per-layer error EMA should be 0.0"
        );
    }
}

#[test]
fn test_crossover_child_warmup_guard_active() {
    let config = ewc_config();
    let mut parent_a: PcActorCritic =
        PcActorCritic::new(CpuLinAlg::new(), config.clone(), 42).unwrap();
    let mut parent_b: PcActorCritic =
        PcActorCritic::new(CpuLinAlg::new(), config.clone(), 123).unwrap();

    let (ac_a, cc_a) = build_caches_for_agent(&mut parent_a, 50);
    let (ac_b, cc_b) = build_caches_for_agent(&mut parent_b, 50);

    let mut child: PcActorCritic = PcActorCritic::crossover(
        &parent_a, &parent_b, &ac_a, &ac_b, &cc_a, &cc_b, 0.5, config, 99,
    )
    .unwrap();

    let state = vec![0.5; 9];
    for _ in 0..5 {
        child.step(&state, 0.0, false);
        child.step(&state, 0.0, true);
    }

    assert!(child.actor_hysteresis.is_none());
}

#[test]
fn test_crossover_weights_from_parents() {
    let config = default_config();
    let mut parent_a: PcActorCritic =
        PcActorCritic::new(CpuLinAlg::new(), config.clone(), 42).unwrap();
    let mut parent_b: PcActorCritic =
        PcActorCritic::new(CpuLinAlg::new(), config.clone(), 123).unwrap();

    let (ac_a, cc_a) = build_caches_for_agent(&mut parent_a, 50);
    let (ac_b, cc_b) = build_caches_for_agent(&mut parent_b, 50);

    let child: PcActorCritic = PcActorCritic::crossover(
        &parent_a, &parent_b, &ac_a, &ac_b, &cc_a, &cc_b, 0.5, config, 99,
    )
    .unwrap();

    assert_ne!(
        child.actor.layers[0].weights.data,
        parent_a.actor.layers[0].weights.data
    );
    assert_ne!(
        child.actor.layers[0].weights.data,
        parent_b.actor.layers[0].weights.data
    );

    assert!(child.actor_fisher.is_empty());
    assert!(child.critic_fisher.is_empty());
    assert!(child.surprises().is_empty());
    assert!(child.td_errors().is_empty());
    assert_eq!(child.actor_plastic_step_counter, 0);
    assert_eq!(child.critic_plastic_step_counter, 0);
}

#[test]
fn test_default_config_reproduces_v2_behavior() {
    let config = default_config();
    assert!(!config.actor_hysteresis);
    assert!(!config.critic_hysteresis);
    assert!(!config.adaptive_consolidation);
    assert!((config.ewc_lambda).abs() < f64::EPSILON);
    assert!(!config.logits_reversal);
    assert!((config.consolidation_decay - 1.0).abs() < f64::EPSILON);
    assert!((config.critic_consolidation_decay - 1.0).abs() < f64::EPSILON);

    let agent = make_agent();
    assert!(agent.actor_hysteresis.is_none());
    assert!(agent.critic_hysteresis.is_none());
    assert!(agent.actor_fisher.is_empty());
    assert!(agent.critic_fisher.is_empty());
    assert!(agent.layer_errors().is_empty());
}

#[test]
fn test_to_cl_state_detects_any_nondefault_cl_field() {
    let mut cfg = default_config();
    cfg.adaptive_consolidation = true;
    cfg.consolidation_ema_beta = 0.99;
    cfg.consolidation_sigmoid_k = 10.0;
    cfg.consolidation_error_threshold = 0.05;
    let agent = PcActorCritic::new(CpuLinAlg::new(), cfg, 42).unwrap();
    let cl = agent.to_cl_state();
    assert!(
        cl.is_some(),
        "to_cl_state should detect non-empty layer_error_ema"
    );
}

#[test]
fn test_to_cl_state_returns_none_for_pure_default_agent() {
    let agent = make_agent();
    let cl = agent.to_cl_state();
    assert!(cl.is_none(), "default agent has no CL state to serialize");
}

#[test]
fn test_compute_decay_factors_matches_manual() {
    let mut cfg = default_config();
    cfg.consolidation_decay = 0.5;
    cfg.critic_consolidation_decay = 0.8;
    cfg.adaptive_consolidation = true;
    cfg.consolidation_ema_beta = 0.99;
    cfg.consolidation_sigmoid_k = 10.0;
    cfg.consolidation_error_threshold = 0.05;
    cfg.actor = PcActorConfig {
        hidden_layers: vec![
            LayerDef {
                size: 10,
                activation: Activation::Tanh,
            },
            LayerDef {
                size: 10,
                activation: Activation::Tanh,
            },
            LayerDef {
                size: 10,
                activation: Activation::Tanh,
            },
        ],
        ..cfg.actor
    };
    let (actor_decay, critic_decay, error_ema) =
        PcActorCritic::compute_decay_factors(&cfg);
    assert_eq!(actor_decay.len(), 3);
    assert!((actor_decay[0] - 0.25).abs() < f64::EPSILON);
    assert!((actor_decay[1] - 0.5).abs() < f64::EPSILON);
    assert!((actor_decay[2] - 1.0).abs() < f64::EPSILON);
    assert_eq!(critic_decay.len(), 1);
    assert_eq!(error_ema.len(), 3);
    assert!(error_ema.iter().all(|&v| v == 0.0));
}

#[test]
fn test_crossover_topology_mismatch_resets_cl_and_runs() {
    let mut config_a = three_layer_config();
    config_a.ewc_lambda = 1.0;
    config_a.fisher_ema_beta = 0.99;
    config_a.actor_hysteresis = true;
    config_a.critic_hysteresis = true;
    config_a.adaptive_surprise = true;
    config_a.surprise_buffer_size = 100;

    let mut parent_a: PcActorCritic =
        PcActorCritic::new(CpuLinAlg::new(), config_a.clone(), 42).unwrap();

    let config_b = default_config();
    let mut parent_b: PcActorCritic =
        PcActorCritic::new(CpuLinAlg::new(), config_b.clone(), 123).unwrap();

    let s1 = vec![1.0, -1.0, 0.0, 0.5, -0.5, 1.0, -1.0, 0.0, 0.5];
    let s2 = vec![0.5, 0.5, -0.5, 0.0, 1.0, -1.0, 0.5, -0.5, 0.0];
    for _ in 0..5 {
        parent_a.step(&s1, 0.0, false);
        parent_a.step(&s2, 1.0, true);
        parent_b.step(&s1, 0.0, false);
        parent_b.step(&s2, -1.0, true);
    }

    let (ac_a, cc_a) = build_caches_for_agent(&mut parent_a, 20);
    let (ac_b, cc_b) = build_caches_for_agent(&mut parent_b, 20);

    let child: PcActorCritic = PcActorCritic::crossover(
        &parent_a,
        &parent_b,
        &ac_a,
        &ac_b,
        &cc_a,
        &cc_b,
        0.5,
        config_a.clone(),
        99,
    )
    .unwrap();

    assert!(
        child.actor_fisher.is_empty(),
        "Child actor_fisher must be empty after cross-topology crossover"
    );
    assert!(
        child.critic_fisher.is_empty(),
        "Child critic_fisher must be empty after cross-topology crossover"
    );
    assert!(child.actor_hysteresis.is_none());
    assert!(child.critic_hysteresis.is_none());
    assert_eq!(child.actor_plastic_step_counter, 0);
    assert_eq!(child.critic_plastic_step_counter, 0);
    assert_eq!(child.critic_frozen_steps, 0);
    assert!(!child.actor_last_phase_reliable);
    assert!(!child.critic_last_phase_reliable);

    assert!(
        child.to_cl_state().is_none(),
        "Cross-topology child should have clean CL defaults"
    );

    let mut child = child;
    let _a1 = child.step(&s1, 0.0, false);
    let _a2 = child.step(&s2, 1.0, true);
}

#[test]
fn test_decay_floor_prevents_permanent_freeze() {
    let mut cfg = default_config();
    cfg.adaptive_consolidation = true;
    cfg.consolidation_ema_beta = 0.99;
    cfg.consolidation_sigmoid_k = 10.0;
    cfg.consolidation_error_threshold = 0.05;
    let mut agent: PcActorCritic = PcActorCritic::new(CpuLinAlg::new(), cfg, 42).unwrap();

    let s1 = vec![0.5; 9];
    let s2 = vec![0.5; 9];
    for _ in 0..200 {
        agent.step(&s1, 0.0, false);
        agent.step(&s2, 0.0, true);
    }

    let decay_low = agent.effective_actor_decay();
    for (i, &d) in decay_low.iter().enumerate() {
        assert!(
            d > 0.0,
            "Layer {i} decay factor should be > 0.0 during low-error phase, got {d}"
        );
    }

    let states: Vec<Vec<f64>> = (0..50)
        .map(|i| {
            (0..9)
                .map(|j| ((i * 7 + j * 13) % 100) as f64 / 50.0 - 1.0)
                .collect()
        })
        .collect();
    for pair in states.chunks(2) {
        agent.step(&pair[0], 1.0, false);
        agent.step(&pair[1], -1.0, true);
    }

    let decay_high = agent.effective_actor_decay();
    for (i, &d) in decay_high.iter().enumerate() {
        assert!(
            d > 0.0,
            "Layer {i} must not be permanently frozen (decay=0.0), got {d}"
        );
        assert!(d <= 1.0, "Layer {i} decay must be <= 1.0, got {d}");
    }

    let weights_before: Vec<f64> = agent.actor.layers[0].weights.data.clone();

    let s_high = [1.0, -1.0, 0.5, -0.5, 1.0, -1.0, 0.5, -0.5, 1.0];
    let s_low = [-1.0, 1.0, -0.5, 0.5, -1.0, 1.0, -0.5, 0.5, -1.0];
    agent.step(&s_high, 0.0, false);
    agent.step(&s_low, 1.0, true);

    let weights_after: Vec<f64> = agent.actor.layers[0].weights.data.clone();
    let any_changed = weights_before
        .iter()
        .zip(weights_after.iter())
        .any(|(a, b)| (a - b).abs() > f64::EPSILON);
    assert!(
        any_changed,
        "Layer weights must change after high-surprise event (not permanently frozen)"
    );
}

#[test]
fn test_nan_does_not_propagate_through_cl_pipeline() {
    let mut cfg = default_config();
    cfg.adaptive_surprise = true;
    cfg.surprise_buffer_size = 100;
    cfg.adaptive_consolidation = true;
    cfg.consolidation_ema_beta = 0.99;
    cfg.consolidation_sigmoid_k = 10.0;
    cfg.consolidation_error_threshold = 0.05;
    let mut agent: PcActorCritic = PcActorCritic::new(CpuLinAlg::new(), cfg, 42).unwrap();

    let state_a = vec![0.0; 9];
    let state_b = vec![1.0; 9];
    for _ in 0..50 {
        let action = agent.step(&state_a, 0.0, false);
        assert!(action < 9, "Action must be valid");
        let action = agent.step(&state_b, 0.0, true);
        assert!(action < 9, "Action must be valid");
    }

    for (li, layer) in agent.actor.layers.iter().enumerate() {
        for (wi, w) in layer.weights.data.iter().enumerate() {
            assert!(
                w.is_finite(),
                "Actor layer {li} weight {wi} is not finite: {w}"
            );
        }
        for (bi, b) in CpuLinAlg::new().vec_to_vec(&layer.bias).iter().enumerate() {
            assert!(
                b.is_finite(),
                "Actor layer {li} bias {bi} is not finite: {b}"
            );
        }
    }

    let scale = agent.surprise_scale(0.0);
    assert!(
        scale.is_finite(),
        "surprise_scale(0.0) must be finite: {scale}"
    );

    for (i, &e) in agent.layer_errors().iter().enumerate() {
        assert!(e.is_finite(), "layer_error_ema[{i}] is not finite: {e:?}");
    }

    let decay = agent.effective_actor_decay();
    for (i, &d) in decay.iter().enumerate() {
        assert!(
            d.is_finite(),
            "effective_actor_decay[{i}] is not finite: {d}"
        );
    }

    let extreme_state = vec![1e6; 9];
    let action = agent.step(&extreme_state, 100.0, false);
    assert!(action < 9, "Action must be valid with extreme input");

    for (li, layer) in agent.actor.layers.iter().enumerate() {
        for (wi, w) in layer.weights.data.iter().enumerate() {
            assert!(
                w.is_finite(),
                "After extreme input: actor layer {li} weight {wi} is not finite: {w}"
            );
        }
    }

    let zero_state = vec![0.0; 9];
    let action = agent.step(&zero_state, 0.0, true);
    assert!(action < 9, "Action must be valid with zero input");

    for (li, layer) in agent.actor.layers.iter().enumerate() {
        for (wi, w) in layer.weights.data.iter().enumerate() {
            assert!(
                w.is_finite(),
                "After zero input: actor layer {li} weight {wi} is not finite: {w}"
            );
        }
    }
}

#[test]
fn test_m3b_layer_error_ema_updates_during_learning() {
    let mut cfg = default_config();
    cfg.adaptive_consolidation = true;
    cfg.consolidation_ema_beta = 0.99;
    cfg.consolidation_sigmoid_k = 10.0;
    cfg.consolidation_error_threshold = 0.05;
    let mut agent: PcActorCritic = PcActorCritic::new(CpuLinAlg::new(), cfg, 42).unwrap();

    assert!(
        agent.layer_errors().iter().all(|&v| v == 0.0),
        "layer_error_ema should start at 0.0"
    );

    let states: Vec<Vec<f64>> = (0..20)
        .map(|i| {
            (0..9)
                .map(|j| ((i * 7 + j * 13) % 100) as f64 / 50.0 - 1.0)
                .collect()
        })
        .collect();
    for pair in states.chunks(2) {
        agent.step(&pair[0], 0.5, false);
        agent.step(&pair[1], -0.5, true);
    }

    let any_nonzero = agent.layer_errors().iter().any(|&v| v > 0.0);
    assert!(
        any_nonzero,
        "layer_error_ema must be updated during learning, got {:?}",
        agent.layer_errors()
    );

    for (i, &v) in agent.layer_errors().iter().enumerate() {
        assert!(v.is_finite(), "layer_error_ema[{i}] must be finite: {v}");
        assert!(
            v > 1e-6,
            "layer_error_ema[{i}] must reflect actual prediction errors (> 1e-6), got {v}"
        );
    }
}

#[test]
fn test_nan_reward_does_not_corrupt_weights() {
    let mut agent: PcActorCritic = make_agent();

    let s1 = vec![1.0, -1.0, 0.0, 0.5, -0.5, 1.0, -1.0, 0.0, 0.5];
    let s2 = vec![0.5, 0.5, -0.5, 0.0, 1.0, -1.0, 0.5, -0.5, 0.0];
    for _ in 0..5 {
        agent.step(&s1, 1.0, false);
        agent.step(&s2, -1.0, true);
    }

    let actor_weights_before: Vec<f64> = agent.actor.layers[0].weights.data.clone();
    let critic_weights_before: Vec<f64> = agent.critic.layers[0].weights.data.clone();

    agent.step(&s1, 0.0, false);
    agent.step(&s2, f64::NAN, false);

    assert_eq!(
        agent.actor.layers[0].weights.data, actor_weights_before,
        "Actor weights must be unchanged after NaN reward"
    );
    assert_eq!(
        agent.critic.layers[0].weights.data, critic_weights_before,
        "Critic weights must be unchanged after NaN reward"
    );

    for (i, &s) in agent.surprises().iter().enumerate() {
        assert!(
            s.is_finite(),
            "surprise_buffer[{i}] became non-finite after NaN reward: {s}"
        );
    }

    for (i, &t) in agent.td_errors().iter().enumerate() {
        assert!(
            t.is_finite(),
            "td_error_buffer[{i}] became non-finite after NaN reward: {t}"
        );
    }
}

#[test]
fn test_td0_unchanged_with_td_steps_zero() {
    let mut cfg_a = default_config();
    cfg_a.gae_lambda = None;
    cfg_a.td_steps = 0;
    let mut agent_a: PcActorCritic = PcActorCritic::new(CpuLinAlg::new(), cfg_a, 42).unwrap();

    let mut cfg_b = default_config();
    cfg_b.gae_lambda = None;
    let mut agent_b: PcActorCritic = PcActorCritic::new(CpuLinAlg::new(), cfg_b, 42).unwrap();

    let s1 = vec![1.0, -1.0, 0.0, 0.5, -0.5, 1.0, -1.0, 0.0, 0.5];
    let s2 = vec![0.5, 0.5, -0.5, 0.0, 1.0, -1.0, 0.5, -0.5, 0.0];

    for _ in 0..5 {
        agent_a.step(&s1, 1.0, false);
        agent_a.step(&s2, -1.0, true);
        agent_b.step(&s1, 1.0, false);
        agent_b.step(&s2, -1.0, true);
    }

    assert_eq!(
        agent_a.actor.layers[0].weights.data, agent_b.actor.layers[0].weights.data,
        "td_steps=0 must produce identical actor weights to default"
    );
    assert_eq!(
        agent_a.critic.layers[0].weights.data, agent_b.critic.layers[0].weights.data,
        "td_steps=0 must produce identical critic weights to default"
    );
}

#[test]
fn test_td_n_return_computation() {
    let gamma = 0.95;
    let rewards = [1.0, 2.0, 3.0];
    let expected = 1.0 + 0.95 * 2.0 + 0.95 * 0.95 * 3.0;
    let result = compute_n_step_reward(gamma, &rewards);
    assert!(
        (result - expected).abs() < 1e-12,
        "n-step return: expected {expected}, got {result}"
    );
}

#[test]
fn test_td_n_return_single_step() {
    let result = compute_n_step_reward(0.95, &[5.0]);
    assert!((result - 5.0).abs() < f64::EPSILON);
}

#[test]
fn test_td_n_return_empty() {
    let result = compute_n_step_reward(0.95, &[]);
    assert!((result).abs() < f64::EPSILON);
}

#[test]
fn test_td_n_buffer_fills_at_n() {
    let mut cfg = default_config();
    cfg.gae_lambda = None;
    cfg.td_steps = 3;
    let mut agent: PcActorCritic = PcActorCritic::new(CpuLinAlg::new(), cfg, 42).unwrap();

    let s1 = vec![1.0, -1.0, 0.0, 0.5, -0.5, 1.0, -1.0, 0.0, 0.5];
    let s2 = vec![0.5, 0.5, -0.5, 0.0, 1.0, -1.0, 0.5, -0.5, 0.0];
    let s3 = vec![0.0, 1.0, -1.0, 0.5, 0.0, -0.5, 1.0, -1.0, 0.5];
    let s4 = vec![-0.5, 0.5, 0.0, -1.0, 1.0, 0.0, -0.5, 0.5, -1.0];

    agent.step(&s1, 0.0, false);

    let w_before = agent.actor.layers[0].weights.data.clone();
    agent.step(&s2, 1.0, false);
    let w_after_step2 = agent.actor.layers[0].weights.data.clone();
    assert_eq!(w_before, w_after_step2, "Buffer not full — no learning yet");

    agent.step(&s3, 0.5, false);
    let w_after_step3 = agent.actor.layers[0].weights.data.clone();
    assert_eq!(
        w_before, w_after_step3,
        "Buffer still not full — no learning"
    );

    agent.step(&s4, -1.0, false);
    let w_after_step4 = agent.actor.layers[0].weights.data.clone();
    assert_ne!(
        w_before, w_after_step4,
        "Buffer full (3 = td_steps) — learning must fire"
    );
}

#[test]
fn test_td_n_terminal_flush() {
    let mut cfg = default_config();
    cfg.gae_lambda = None;
    cfg.td_steps = 5;
    let mut agent: PcActorCritic = PcActorCritic::new(CpuLinAlg::new(), cfg, 42).unwrap();

    let s1 = vec![1.0, -1.0, 0.0, 0.5, -0.5, 1.0, -1.0, 0.0, 0.5];
    let s2 = vec![0.5, 0.5, -0.5, 0.0, 1.0, -1.0, 0.5, -0.5, 0.0];
    let s3 = vec![0.0, 1.0, -1.0, 0.5, 0.0, -0.5, 1.0, -1.0, 0.5];

    let w_before = agent.actor.layers[0].weights.data.clone();

    agent.step(&s1, 0.0, false);
    agent.step(&s2, 1.0, false);
    agent.step(&s3, -1.0, true);

    let w_after = agent.actor.layers[0].weights.data.clone();
    assert_ne!(
        w_before, w_after,
        "Terminal flush must update weights even if buffer < td_steps"
    );

    assert!(
        agent.td_buffer.is_empty(),
        "td_buffer must be empty after terminal flush"
    );
}

#[test]
fn test_td_n_reset_clears_buffer() {
    let mut cfg = default_config();
    cfg.gae_lambda = None;
    cfg.td_steps = 5;
    let mut agent: PcActorCritic = PcActorCritic::new(CpuLinAlg::new(), cfg, 42).unwrap();

    let s1 = vec![1.0; 9];
    let s2 = vec![0.5; 9];
    agent.step(&s1, 0.0, false);
    agent.step(&s2, 1.0, false);

    agent.reset_step();
    assert!(
        agent.td_buffer.is_empty(),
        "reset_step must clear td_buffer"
    );
}

#[test]
fn test_td_n_short_episode_monte_carlo() {
    let mut cfg = default_config();
    cfg.gae_lambda = None;
    cfg.td_steps = 10;
    let mut agent: PcActorCritic = PcActorCritic::new(CpuLinAlg::new(), cfg, 42).unwrap();

    let w_before = agent.actor.layers[0].weights.data.clone();

    let s1 = vec![1.0, -1.0, 0.0, 0.5, -0.5, 1.0, -1.0, 0.0, 0.5];
    let s2 = vec![0.5, 0.5, -0.5, 0.0, 1.0, -1.0, 0.5, -0.5, 0.0];
    agent.step(&s1, 0.0, false);
    agent.step(&s2, 5.0, true);

    let w_after = agent.actor.layers[0].weights.data.clone();
    assert_ne!(
        w_before, w_after,
        "Short episode must still learn at terminal"
    );
}

#[test]
fn test_td_n_nan_reward_rejected_at_buffer() {
    let mut cfg = default_config();
    cfg.gae_lambda = None;
    cfg.td_steps = 3;
    let mut agent: PcActorCritic = PcActorCritic::new(CpuLinAlg::new(), cfg, 42).unwrap();

    let s1 = vec![1.0; 9];
    let s2 = vec![0.5; 9];

    agent.step(&s1, 0.0, false);
    agent.step(&s2, f64::NAN, false);

    for w in &agent.actor.layers[0].weights.data {
        assert!(w.is_finite(), "Weight must be finite after NaN reward");
    }
}

#[test]
fn test_td_n_gamma_power_bootstrap() {
    let mut cfg_tdn = default_config();
    cfg_tdn.gae_lambda = None;
    cfg_tdn.td_steps = 2;
    let mut agent_tdn: PcActorCritic =
        PcActorCritic::new(CpuLinAlg::new(), cfg_tdn, 42).unwrap();

    let s1 = vec![1.0, -1.0, 0.0, 0.5, -0.5, 1.0, -1.0, 0.0, 0.5];
    let s2 = vec![0.5, 0.5, -0.5, 0.0, 1.0, -1.0, 0.5, -0.5, 0.0];
    let s3 = vec![0.0, 1.0, -1.0, 0.5, 0.0, -0.5, 1.0, -1.0, 0.5];

    agent_tdn.step(&s1, 0.0, false);
    agent_tdn.step(&s2, 1.0, false);
    agent_tdn.step(&s3, 2.0, false);

    let mut cfg_td0 = default_config();
    cfg_td0.gae_lambda = None;
    cfg_td0.td_steps = 0;
    let mut agent_td0: PcActorCritic =
        PcActorCritic::new(CpuLinAlg::new(), cfg_td0, 42).unwrap();

    agent_td0.step(&s1, 0.0, false);
    agent_td0.step(&s2, 1.0, false);
    agent_td0.step(&s3, 2.0, false);

    assert_ne!(
        agent_tdn.actor.layers[0].weights.data, agent_td0.actor.layers[0].weights.data,
        "TD(2) must produce different weights than TD(0)"
    );
}

#[test]
fn critic_wakes_actor_coupling_default_threshold() {
    let mut cfg = default_config();
    cfg.actor_hysteresis = true;
    cfg.critic_hysteresis = true;
    cfg.critic_wakes_actor = true;
    let mut agent = PcActorCritic::new(CpuLinAlg::new(), cfg, 42).unwrap();

    agent.actor_hysteresis.as_mut().unwrap().state = PlasticityState::Frozen;
    agent.critic_hysteresis.as_mut().unwrap().state = PlasticityState::Frozen;
    agent.actor_frozen_steps = 1000;

    setup_for_wake(agent.critic_hysteresis.as_mut().unwrap());

    agent.process_hysteresis(0.0, 1.0);

    assert_eq!(
        agent.critic_hysteresis.as_ref().unwrap().state,
        PlasticityState::Plastic
    );
    assert_eq!(
        agent.actor_hysteresis.as_ref().unwrap().state,
        PlasticityState::Plastic
    );
    assert_eq!(agent.actor_plastic_step_counter, 0);
    assert_eq!(agent.actor_frozen_steps, 0);
}

#[test]
fn critic_wakes_actor_respects_threshold() {
    let mut cfg = default_config();
    cfg.actor_hysteresis = true;
    cfg.critic_hysteresis = true;
    cfg.critic_wakes_actor = true;
    cfg.critic_wakes_actor_threshold = 500;
    let mut agent = PcActorCritic::new(CpuLinAlg::new(), cfg, 42).unwrap();

    agent.actor_hysteresis.as_mut().unwrap().state = PlasticityState::Frozen;
    agent.critic_hysteresis.as_mut().unwrap().state = PlasticityState::Frozen;
    agent.actor_frozen_steps = 200;

    setup_for_wake(agent.critic_hysteresis.as_mut().unwrap());
    agent.process_hysteresis(0.0, 1.0);

    assert_eq!(
        agent.critic_hysteresis.as_ref().unwrap().state,
        PlasticityState::Plastic
    );
    assert_eq!(
        agent.actor_hysteresis.as_ref().unwrap().state,
        PlasticityState::Frozen
    );

    agent.critic_hysteresis.as_mut().unwrap().state = PlasticityState::Frozen;
    agent.actor_frozen_steps = 500;
    setup_for_wake(agent.critic_hysteresis.as_mut().unwrap());
    agent.process_hysteresis(0.0, 1.0);

    assert_eq!(
        agent.actor_hysteresis.as_ref().unwrap().state,
        PlasticityState::Plastic
    );
}

#[test]
fn critic_wakes_actor_disabled_when_false() {
    let mut cfg = default_config();
    cfg.actor_hysteresis = true;
    cfg.critic_hysteresis = true;
    cfg.critic_wakes_actor = false;
    let mut agent = PcActorCritic::new(CpuLinAlg::new(), cfg, 42).unwrap();

    agent.actor_hysteresis.as_mut().unwrap().state = PlasticityState::Frozen;
    agent.critic_hysteresis.as_mut().unwrap().state = PlasticityState::Frozen;
    agent.actor_frozen_steps = 2000;

    setup_for_wake(agent.critic_hysteresis.as_mut().unwrap());
    agent.process_hysteresis(0.0, 1.0);

    assert_eq!(
        agent.critic_hysteresis.as_ref().unwrap().state,
        PlasticityState::Plastic
    );
    assert_eq!(
        agent.actor_hysteresis.as_ref().unwrap().state,
        PlasticityState::Frozen
    );
}

#[test]
fn actor_frozen_steps_increments_and_resets() {
    let mut cfg = default_config();
    cfg.actor_hysteresis = true;
    let mut agent = PcActorCritic::new(CpuLinAlg::new(), cfg, 42).unwrap();

    agent.actor_hysteresis.as_mut().unwrap().state = PlasticityState::Frozen;
    assert_eq!(agent.actor_frozen_steps, 0);

    agent.process_hysteresis(0.0, 0.0);
    assert_eq!(agent.actor_frozen_steps, 1);

    agent.process_hysteresis(0.0, 0.0);
    assert_eq!(agent.actor_frozen_steps, 2);

    agent.process_hysteresis(0.0, 0.0);
    assert_eq!(agent.actor_frozen_steps, 3);

    setup_for_wake(agent.actor_hysteresis.as_mut().unwrap());
    agent.process_hysteresis(1.0, 0.0);
    assert_eq!(
        agent.actor_hysteresis.as_ref().unwrap().state,
        PlasticityState::Plastic
    );
    assert_eq!(agent.actor_frozen_steps, 0);
}

#[test]
fn coupling_wake_resets_ewma_k_prevents_refreeze() {
    let mut cfg = default_config();
    cfg.actor_hysteresis = true;
    cfg.critic_hysteresis = true;
    cfg.critic_wakes_actor = true;
    cfg.critic_wakes_actor_threshold = 0;
    let mut agent = PcActorCritic::new(CpuLinAlg::new(), cfg, 42).unwrap();

    agent.actor_hysteresis.as_mut().unwrap().state = PlasticityState::Frozen;
    agent.critic_hysteresis.as_mut().unwrap().state = PlasticityState::Frozen;

    setup_for_wake(agent.critic_hysteresis.as_mut().unwrap());
    agent.process_hysteresis(0.0, 1.0);

    let actor_hyst = agent.actor_hysteresis.as_ref().unwrap();
    assert_eq!(actor_hyst.state, PlasticityState::Plastic);
    assert_eq!(actor_hyst.fast.k, 0);
    assert_eq!(actor_hyst.slow.k, 0);

    agent.process_hysteresis(0.001, 0.001);
    assert_eq!(
        agent.actor_hysteresis.as_ref().unwrap().state,
        PlasticityState::Plastic,
        "EWMA warmup (k=0 reset) should prevent immediate re-freeze"
    );
}

#[test]
fn actor_wakes_critic_resets_ewma_k() {
    let mut cfg = default_config();
    cfg.actor_hysteresis = true;
    cfg.critic_hysteresis = true;
    cfg.actor_wakes_critic = true;
    cfg.actor_wakes_critic_threshold = 0;
    let mut agent = PcActorCritic::new(CpuLinAlg::new(), cfg, 42).unwrap();

    agent.actor_hysteresis.as_mut().unwrap().state = PlasticityState::Frozen;
    agent.critic_hysteresis.as_mut().unwrap().state = PlasticityState::Frozen;

    agent.critic_hysteresis.as_mut().unwrap().fast.k = 500;
    agent.critic_hysteresis.as_mut().unwrap().slow.k = 500;

    setup_for_wake(agent.actor_hysteresis.as_mut().unwrap());
    agent.process_hysteresis(1.0, 0.0);

    let critic_hyst = agent.critic_hysteresis.as_ref().unwrap();
    assert_eq!(critic_hyst.state, PlasticityState::Plastic);
    assert_eq!(
        critic_hyst.fast.k, 0,
        "Coupling-forced wake must reset EWMA fast.k to 0"
    );
    assert_eq!(
        critic_hyst.slow.k, 0,
        "Coupling-forced wake must reset EWMA slow.k to 0"
    );
}

#[test]
fn bidirectional_coupling_no_cascade() {
    let mut cfg = default_config();
    cfg.actor_hysteresis = true;
    cfg.critic_hysteresis = true;
    cfg.actor_wakes_critic = true;
    cfg.critic_wakes_actor = true;
    cfg.actor_wakes_critic_threshold = 0;
    cfg.critic_wakes_actor_threshold = 0;
    let mut agent = PcActorCritic::new(CpuLinAlg::new(), cfg, 42).unwrap();

    agent.actor_hysteresis.as_mut().unwrap().state = PlasticityState::Frozen;
    agent.critic_hysteresis.as_mut().unwrap().state = PlasticityState::Frozen;

    setup_for_wake(agent.critic_hysteresis.as_mut().unwrap());

    agent.process_hysteresis(0.0, 1.0);

    assert_eq!(
        agent.critic_hysteresis.as_ref().unwrap().state,
        PlasticityState::Plastic
    );
    assert_eq!(
        agent.actor_hysteresis.as_ref().unwrap().state,
        PlasticityState::Plastic
    );

    agent.process_hysteresis(0.001, 0.001);
    assert_eq!(
        agent.critic_hysteresis.as_ref().unwrap().state,
        PlasticityState::Plastic,
        "No cascade: critic should stay PLASTIC"
    );
    assert_eq!(
        agent.actor_hysteresis.as_ref().unwrap().state,
        PlasticityState::Plastic,
        "No cascade: actor should stay PLASTIC"
    );
}

#[test]
fn critic_wakes_actor_after_sustained_plastic_state() {
    let mut agent = make_cross_wake_test_agent(false, 1000, true, 50);

    agent.actor_hysteresis = Some(from_snapshot(
        PlasticityState::Frozen,
        0.5430,
        100,
        20,
        0.5436,
        100,
        500,
        0.5,
        0.005,
        0,
    ));
    agent.actor_frozen_steps = 100;
    agent.critic_hysteresis = Some(from_snapshot(
        PlasticityState::Plastic,
        0.0170,
        100,
        20,
        0.0168,
        100,
        200,
        0.5,
        0.3,
        9999,
    ));
    agent.critic_plastic_step_counter = 0;

    let actor_frozen_steps_pre = agent.actor_frozen_steps;
    let critic_state_pre = agent.critic_hysteresis.as_ref().unwrap().state.clone();

    for _ in 0..50 {
        agent.process_hysteresis(0.5430, 0.0170);
    }

    assert_eq!(
        agent.actor_hysteresis.as_ref().unwrap().state,
        PlasticityState::Plastic,
        "Actor should have been woken via sustained-plastic cross-wake"
    );
    assert_eq!(
        agent.actor_frozen_steps, 0,
        "cross-wake must reset actor_frozen_steps (was {actor_frozen_steps_pre})"
    );
    assert_eq!(
        agent.critic_hysteresis.as_ref().unwrap().state,
        critic_state_pre,
        "critic must not have transitioned naturally during this test"
    );
    assert!(
        agent.actor_fisher.is_empty(),
        "ewc_lambda=0 must keep actor_fisher empty even after cross-wake fires"
    );
}

#[test]
fn cross_wake_source_counter_reset_on_sustained_firing() {
    let mut agent = make_cross_wake_test_agent(false, 1000, true, 10);

    agent.actor_hysteresis = Some(from_snapshot(
        PlasticityState::Frozen,
        0.5,
        100,
        20,
        0.5,
        100,
        500,
        0.5,
        0.005,
        0,
    ));
    agent.actor_frozen_steps = 100;
    agent.critic_hysteresis = Some(from_snapshot(
        PlasticityState::Plastic,
        0.01,
        100,
        20,
        0.01,
        100,
        200,
        0.5,
        0.3,
        9999,
    ));
    agent.critic_plastic_step_counter = 0;

    for _ in 0..10 {
        agent.process_hysteresis(0.5, 0.01);
    }

    assert_eq!(
        agent.critic_plastic_step_counter, 0,
        "sustained-path fire must reset source counter (symmetric cooldown)"
    );
    assert_eq!(
        agent.actor_frozen_steps, 0,
        "sustained-path fire must reset target counter"
    );
    assert_eq!(
        agent.actor_hysteresis.as_ref().unwrap().state,
        PlasticityState::Plastic,
        "actor must be Plastic after cross-wake"
    );
}

#[test]
fn cross_wake_throttle_prevents_refire_before_threshold() {
    let mut agent = make_cross_wake_test_agent(false, 1000, true, 10);

    agent.actor_hysteresis = Some(from_snapshot(
        PlasticityState::Frozen,
        0.5,
        100,
        20,
        0.5,
        100,
        500,
        0.5,
        0.005,
        0,
    ));
    agent.actor_frozen_steps = 100;
    agent.critic_hysteresis = Some(from_snapshot(
        PlasticityState::Plastic,
        0.01,
        100,
        20,
        0.01,
        100,
        200,
        0.5,
        0.3,
        9999,
    ));
    agent.critic_plastic_step_counter = 0;

    for _ in 0..10 {
        agent.process_hysteresis(0.5, 0.01);
    }
    assert_eq!(
        agent.actor_hysteresis.as_ref().unwrap().state,
        PlasticityState::Plastic,
        "setup: fire #1 must have occurred"
    );

    agent.actor_hysteresis.as_mut().unwrap().state = PlasticityState::Frozen;
    agent.actor_frozen_steps = 0;

    for _ in 0..9 {
        agent.process_hysteresis(0.5, 0.01);
    }

    assert_eq!(
        agent.actor_hysteresis.as_ref().unwrap().state,
        PlasticityState::Frozen,
        "cross-wake must not refire before threshold steps elapse"
    );

    agent.process_hysteresis(0.5, 0.01);
    assert_eq!(
        agent.actor_hysteresis.as_ref().unwrap().state,
        PlasticityState::Plastic,
        "cross-wake fires on the 10th sustained step"
    );
}

#[test]
fn actor_wakes_critic_after_sustained_plastic_state() {
    let mut agent = make_cross_wake_test_agent(true, 50, false, 1000);

    agent.actor_hysteresis = Some(from_snapshot(
        PlasticityState::Plastic,
        0.8,
        100,
        20,
        0.8,
        100,
        500,
        0.5,
        0.005,
        9999,
    ));
    agent.actor_plastic_step_counter = 0;
    agent.critic_hysteresis = Some(from_snapshot(
        PlasticityState::Frozen,
        0.1,
        100,
        20,
        0.1,
        100,
        200,
        0.5,
        0.3,
        0,
    ));
    agent.critic_frozen_steps = 100;

    let critic_frozen_steps_pre = agent.critic_frozen_steps;
    let actor_state_pre = agent.actor_hysteresis.as_ref().unwrap().state.clone();

    for _ in 0..50 {
        agent.process_hysteresis(0.8, 0.1);
    }

    assert_eq!(
        agent.critic_hysteresis.as_ref().unwrap().state,
        PlasticityState::Plastic,
        "Critic should have been woken via sustained-plastic cross-wake"
    );
    assert_eq!(
        agent.critic_frozen_steps, 0,
        "cross-wake must reset critic_frozen_steps (was {critic_frozen_steps_pre})"
    );
    assert_eq!(
        agent.actor_hysteresis.as_ref().unwrap().state,
        actor_state_pre,
        "actor must not have transitioned naturally during this test"
    );
}

#[test]
fn both_plastic_sustained_is_noop() {
    let mut agent = make_cross_wake_test_agent(true, 10, true, 10);

    agent.actor_hysteresis = Some(from_snapshot(
        PlasticityState::Plastic,
        0.5,
        100,
        20,
        0.5,
        100,
        500,
        0.5,
        0.005,
        9999,
    ));
    agent.actor_plastic_step_counter = 100;
    agent.critic_hysteresis = Some(from_snapshot(
        PlasticityState::Plastic,
        0.5,
        100,
        20,
        0.5,
        100,
        200,
        0.5,
        0.3,
        9999,
    ));
    agent.critic_plastic_step_counter = 100;

    for _ in 0..20 {
        agent.process_hysteresis(0.5, 0.5);
    }

    assert_eq!(
        agent.actor_hysteresis.as_ref().unwrap().state,
        PlasticityState::Plastic,
        "actor must remain Plastic (both-sustained no-op)"
    );
    assert_eq!(
        agent.critic_hysteresis.as_ref().unwrap().state,
        PlasticityState::Plastic,
        "critic must remain Plastic (both-sustained no-op)"
    );
    assert!(
        agent.actor_plastic_step_counter > 100,
        "actor counter must keep accumulating (no fire should reset it)"
    );
    assert!(
        agent.critic_plastic_step_counter > 100,
        "critic counter must keep accumulating (no fire should reset it)"
    );
}

#[test]
fn sustained_cross_wake_fires_fisher_wake_under_ewc() {
    let mut cfg = default_config();
    cfg.ewc_lambda = 0.01;
    cfg.actor_hysteresis = true;
    cfg.critic_hysteresis = true;
    cfg.critic_wakes_actor = true;
    cfg.critic_wakes_actor_threshold = 10;
    cfg.actor_wakes_critic = false;
    let mut agent: PcActorCritic = PcActorCritic::new(CpuLinAlg::new(), cfg, 42).unwrap();

    assert!(
        !agent.actor_fisher.is_empty(),
        "actor_fisher must be allocated when ewc_lambda > 0"
    );

    let backend = CpuLinAlg::new();
    for fisher in agent.actor_fisher.iter_mut() {
        backend.mat_set(&mut fisher.f_ema_weights, 0, 0, 42.0);
    }
    assert_eq!(
        backend.mat_get(&agent.actor_fisher[0].f_ema_weights, 0, 0),
        42.0,
        "sanity: seed applied to f_ema_weights"
    );

    agent.actor_hysteresis = Some(from_snapshot(
        PlasticityState::Frozen,
        0.5,
        100,
        20,
        0.5,
        100,
        500,
        0.5,
        0.005,
        0,
    ));
    agent.actor_frozen_steps = 100;
    agent.critic_hysteresis = Some(from_snapshot(
        PlasticityState::Plastic,
        0.01,
        100,
        20,
        0.01,
        100,
        200,
        0.5,
        0.3,
        9999,
    ));
    agent.critic_plastic_step_counter = 0;

    for _ in 0..10 {
        agent.process_hysteresis(0.5, 0.01);
    }

    assert_eq!(
        agent.actor_hysteresis.as_ref().unwrap().state,
        PlasticityState::Plastic,
        "actor must be Plastic after sustained-path cross-wake"
    );

    assert_eq!(
        backend.mat_get(&agent.actor_fisher[0].f_ema_weights, 0, 0),
        0.0,
        "handle_fisher_wake must reset f_ema_weights after sustained cross-wake"
    );

    for fisher in &agent.actor_fisher {
        let rows = backend.mat_rows(&fisher.f_ema_weights);
        let cols = backend.mat_cols(&fisher.f_ema_weights);
        for r in 0..rows {
            for c in 0..cols {
                let val = backend.mat_get(&fisher.f_ema_weights, r, c);
                assert!(
                    val.is_finite(),
                    "f_ema_weights[{r}][{c}] must be finite post-wake"
                );
            }
        }
        let total_rows = backend.mat_rows(&fisher.f_total_weights);
        let total_cols = backend.mat_cols(&fisher.f_total_weights);
        for r in 0..total_rows {
            for c in 0..total_cols {
                let val = backend.mat_get(&fisher.f_total_weights, r, c);
                assert!(
                    val.is_finite(),
                    "f_total_weights[{r}][{c}] must be finite post-wake"
                );
            }
        }
    }
}

#[test]
fn test_gae_lambda_default_is_none() {
    let cfg = default_config();
    assert_eq!(cfg.gae_lambda, None);
}

#[test]
fn test_gae_lambda_and_td_steps_mutually_exclusive() {
    let mut cfg = default_config();
    cfg.gae_lambda = Some(0.95);
    cfg.td_steps = 4;
    let result = PcActorCritic::new(CpuLinAlg::new(), cfg, 42);
    assert!(result.is_err(), "gae_lambda + td_steps should be rejected");
}

#[test]
fn test_gae_lambda_none_allows_td_steps() {
    let mut cfg = default_config();
    cfg.gae_lambda = None;
    cfg.td_steps = 4;
    let result = PcActorCritic::new(CpuLinAlg::new(), cfg, 42);
    assert!(result.is_ok(), "gae_lambda=None + td_steps should work");
}

#[test]
fn test_gae_lambda_out_of_range_rejected() {
    let mut cfg = default_config();
    cfg.gae_lambda = Some(1.5);
    assert!(PcActorCritic::new(CpuLinAlg::new(), cfg.clone(), 42).is_err());

    cfg.gae_lambda = Some(-0.1);
    assert!(PcActorCritic::new(CpuLinAlg::new(), cfg, 42).is_err());
}

#[test]
fn test_gae_trace_field_exists_and_correct_size() {
    let mut cfg = default_config();
    cfg.gae_lambda = Some(0.95);
    let agent: PcActorCritic = PcActorCritic::new(CpuLinAlg::new(), cfg, 42).unwrap();

    assert_eq!(
        agent.trace().len(),
        9,
        "Trace size must equal output_size"
    );
    assert!(
        agent.trace().iter().all(|&v| v == 0.0),
        "Trace must start at zero"
    );
}

#[test]
fn test_gae_trace_empty_when_disabled() {
    let mut cfg = default_config();
    cfg.gae_lambda = None;
    let agent: PcActorCritic = PcActorCritic::new(CpuLinAlg::new(), cfg, 42).unwrap();

    assert!(
        agent.trace().is_empty(),
        "Trace must be empty when gae_lambda=None"
    );
}

#[test]
fn test_gae_trace_accumulates_across_steps() {
    let mut cfg = default_config();
    cfg.gae_lambda = Some(0.95);
    let mut agent: PcActorCritic = PcActorCritic::new(CpuLinAlg::new(), cfg, 42).unwrap();
    assert!(agent.trace().iter().all(|&v| v == 0.0));
    let s1 = vec![1.0, -1.0, 0.0, 0.5, -0.5, 1.0, -1.0, 0.0, 0.5];
    agent.step(&s1, 0.0, false);
    let s2 = vec![0.5, 0.5, -0.5, 0.0, 1.0, -1.0, 0.5, -0.5, 0.0];
    agent.step(&s2, 1.0, false);
    assert!(
        agent.trace().iter().any(|&v| v.abs() > 1e-10),
        "Trace must accumulate after learning step"
    );
}

#[test]
fn test_gae_trace_resets_on_terminal() {
    let mut cfg = default_config();
    cfg.gae_lambda = Some(0.95);
    let mut agent: PcActorCritic = PcActorCritic::new(CpuLinAlg::new(), cfg, 42).unwrap();
    let s1 = vec![1.0; 9];
    let s2 = vec![0.5; 9];
    agent.step(&s1, 0.0, false);
    agent.step(&s2, 1.0, true);
    assert!(
        agent.trace().iter().all(|&v| v == 0.0),
        "Trace must reset on terminal"
    );
}

#[test]
fn test_gae_trace_resets_on_reset_step() {
    let mut cfg = default_config();
    cfg.gae_lambda = Some(0.95);
    let mut agent: PcActorCritic = PcActorCritic::new(CpuLinAlg::new(), cfg, 42).unwrap();
    let s1 = vec![1.0; 9];
    let s2 = vec![0.5; 9];
    agent.step(&s1, 0.0, false);
    agent.step(&s2, 1.0, false);
    agent.reset_step();
    assert!(
        agent.trace().iter().all(|&v| v == 0.0),
        "Trace must reset on reset_step"
    );
}

#[test]
fn test_gae_produces_different_weights_than_td0() {
    let mut cfg_gae = default_config();
    cfg_gae.gae_lambda = Some(0.95);
    let mut agent_gae: PcActorCritic =
        PcActorCritic::new(CpuLinAlg::new(), cfg_gae, 42).unwrap();
    let mut cfg_td0 = default_config();
    cfg_td0.gae_lambda = None;
    let mut agent_td0: PcActorCritic =
        PcActorCritic::new(CpuLinAlg::new(), cfg_td0, 42).unwrap();
    let s1 = vec![1.0, -1.0, 0.0, 0.5, -0.5, 1.0, -1.0, 0.0, 0.5];
    let s2 = vec![0.5, 0.5, -0.5, 0.0, 1.0, -1.0, 0.5, -0.5, 0.0];
    let s3 = vec![0.0, 1.0, -1.0, 0.5, 0.0, -0.5, 1.0, -1.0, 0.5];
    for agent in [&mut agent_gae, &mut agent_td0] {
        agent.step(&s1, 0.0, false);
        agent.step(&s2, 1.0, false);
        agent.step(&s3, -1.0, true);
    }
    assert_ne!(
        agent_gae.actor.layers[0].weights.data, agent_td0.actor.layers[0].weights.data,
        "GAE(0.95) must produce different weights than TD(0)"
    );
}

#[test]
fn test_gae_lambda_zero_matches_td0() {
    let mut cfg_gae0 = default_config();
    cfg_gae0.entropy_coeff = 0.0;
    cfg_gae0.gae_lambda = Some(0.0);
    let mut agent_gae0: PcActorCritic =
        PcActorCritic::new(CpuLinAlg::new(), cfg_gae0, 42).unwrap();
    let mut cfg_td0 = default_config();
    cfg_td0.entropy_coeff = 0.0;
    cfg_td0.gae_lambda = None;
    let mut agent_td0: PcActorCritic =
        PcActorCritic::new(CpuLinAlg::new(), cfg_td0, 42).unwrap();
    let s1 = vec![1.0, -1.0, 0.0, 0.5, -0.5, 1.0, -1.0, 0.0, 0.5];
    let s2 = vec![0.5, 0.5, -0.5, 0.0, 1.0, -1.0, 0.5, -0.5, 0.0];
    for agent in [&mut agent_gae0, &mut agent_td0] {
        agent.step(&s1, 0.0, false);
        agent.step(&s2, 1.0, true);
    }
    assert_eq!(
        agent_gae0.actor.layers[0].weights.data, agent_td0.actor.layers[0].weights.data,
        "GAE(0.0) must be identical to TD(0) when entropy=0"
    );
}

#[test]
fn test_gae_nan_reward_safe() {
    let mut cfg = default_config();
    cfg.gae_lambda = Some(0.95);
    let mut agent: PcActorCritic = PcActorCritic::new(CpuLinAlg::new(), cfg, 42).unwrap();

    let s1 = vec![1.0; 9];
    let s2 = vec![0.5; 9];
    agent.step(&s1, 0.0, false);

    let trace_before = agent.trace().clone();
    let weights_before = agent.actor.layers[0].weights.data.clone();

    agent.step(&s2, f64::NAN, false);

    assert_eq!(
        agent.trace(), trace_before,
        "Trace must be unchanged after NaN reward"
    );
    assert_eq!(
        agent.actor.layers[0].weights.data, weights_before,
        "Weights must be unchanged after NaN reward"
    );
}

#[test]
fn test_validate_topology_match_identical_config_ok() {
    let agent = make_agent();
    let config = default_config();
    assert!(agent.validate_topology_match(&config).is_ok());
}

#[test]
fn test_validate_topology_match_different_actor_input_size() {
    let agent = make_agent();
    let mut config = default_config();
    config.actor.input_size = 4;
    let err = agent.validate_topology_match(&config).unwrap_err();
    assert!(
        err.to_string().contains("actor input_size mismatch"),
        "Expected actor input_size mismatch, got: {err:?}"
    );
}

#[test]
fn test_validate_topology_match_different_actor_hidden_count() {
    let agent = make_agent();
    let mut config = default_config();
    config.actor.hidden_layers.push(LayerDef {
        size: 12,
        activation: Activation::Tanh,
    });
    let err = agent.validate_topology_match(&config).unwrap_err();
    assert!(
        err.to_string().contains("actor hidden layer count mismatch"),
        "Expected actor hidden layer count error, got: {err:?}"
    );
}

#[test]
fn test_validate_topology_match_different_actor_hidden_size() {
    let agent = make_agent();
    let mut config = default_config();
    config.actor.hidden_layers[0].size = 27;
    let err = agent.validate_topology_match(&config).unwrap_err();
    assert!(
        err.to_string().contains("actor hidden layer 0 size mismatch"),
        "Expected actor hidden layer size error, got: {err:?}"
    );
}

#[test]
fn test_validate_topology_match_different_actor_output_size() {
    let agent = make_agent();
    let mut config = default_config();
    config.actor.output_size = 4;
    let err = agent.validate_topology_match(&config).unwrap_err();
    assert!(
        err.to_string().contains("actor output_size mismatch"),
        "Expected actor output_size error, got: {err:?}"
    );
}

#[test]
fn test_validate_topology_match_different_critic_input_size() {
    let agent = make_agent();
    let mut config = default_config();
    config.critic.input_size = 18;
    let err = agent.validate_topology_match(&config).unwrap_err();
    assert!(
        err.to_string().contains("critic input_size mismatch"),
        "Expected critic input_size error, got: {err:?}"
    );
}

#[test]
fn test_validate_topology_match_different_critic_hidden_count() {
    let agent = make_agent();
    let mut config = default_config();
    config.critic.hidden_layers.push(LayerDef {
        size: 24,
        activation: Activation::Tanh,
    });
    let err = agent.validate_topology_match(&config).unwrap_err();
    assert!(
        err.to_string().contains("critic hidden layer count mismatch"),
        "Expected critic hidden layer count error, got: {err:?}"
    );
}

#[test]
fn test_validate_topology_match_different_critic_hidden_size() {
    let agent = make_agent();
    let mut config = default_config();
    config.critic.hidden_layers[0].size = 24;
    let err = agent.validate_topology_match(&config).unwrap_err();
    assert!(
        err.to_string().contains("critic hidden layer 0 size mismatch"),
        "Expected critic hidden layer size error, got: {err:?}"
    );
}

#[test]
fn test_validate_topology_match_rejects_different_hidden_activation() {
    let agent = make_agent();
    let mut config = default_config();
    config.actor.hidden_layers[0].activation = Activation::Softsign;
    let err = agent.validate_topology_match(&config).unwrap_err();
    assert!(
        err.to_string().contains("actor hidden layer 0 activation mismatch"),
        "Expected actor hidden activation mismatch, got: {err:?}"
    );
}

#[test]
fn test_validate_topology_match_rejects_different_critic_hidden_activation() {
    let agent = make_agent();
    let mut config = default_config();
    config.critic.hidden_layers[0].activation = Activation::Softsign;
    let err = agent.validate_topology_match(&config).unwrap_err();
    assert!(
        err.to_string().contains("critic hidden layer 0 activation mismatch"),
        "Expected critic hidden activation mismatch, got: {err:?}"
    );
}

#[test]
fn test_validate_topology_match_tolerates_f64_round_trip_drift() {
    let agent = make_agent();
    let mut config = default_config();
    let base_lr = config.actor.lr_weights;
    config.actor.lr_weights = f64::from_bits(base_lr.to_bits() + 1);
    let base_temp = config.actor.temperature;
    config.actor.temperature = f64::from_bits(base_temp.to_bits() + 1);
    let base_alpha = config.actor.alpha;
    config.actor.alpha = f64::from_bits(base_alpha.to_bits() + 1);
    let base_clr = config.critic.lr;
    config.critic.lr = f64::from_bits(base_clr.to_bits() + 1);
    assert!(agent.validate_topology_match(&config).is_ok());
}

#[test]
fn test_validate_topology_match_different_output_activation() {
    let agent = make_agent();
    let mut config = default_config();
    config.actor.output_activation = Activation::Linear;
    let err = agent.validate_topology_match(&config).unwrap_err();
    assert!(
        err.to_string().contains("actor output_activation mismatch"),
        "Expected output_activation mismatch, got: {err:?}"
    );
}

#[test]
fn test_validate_topology_match_different_residual() {
    let agent = make_agent();
    let mut config = default_config();
    config.actor.residual = true;
    let err = agent.validate_topology_match(&config).unwrap_err();
    assert!(
        err.to_string().contains("actor residual mismatch"),
        "Expected residual mismatch, got: {err:?}"
    );
}

#[test]
fn test_validate_topology_match_different_rezero_init() {
    let agent = make_agent();
    let mut config = default_config();
    config.actor.rezero_init = 0.5;
    let err = agent.validate_topology_match(&config).unwrap_err();
    assert!(
        err.to_string().contains("actor rezero_init mismatch"),
        "Expected rezero_init mismatch, got: {err:?}"
    );
}

#[test]
fn test_validate_topology_match_different_actor_lr() {
    let agent = make_agent();
    let mut config = default_config();
    config.actor.lr_weights = 0.1;
    let err = agent.validate_topology_match(&config).unwrap_err();
    assert!(
        err.to_string().contains("actor lr_weights mismatch"),
        "Expected actor lr_weights mismatch, got: {err:?}"
    );
}

#[test]
fn test_validate_topology_match_different_actor_temperature() {
    let agent = make_agent();
    let mut config = default_config();
    config.actor.temperature = 2.0;
    let err = agent.validate_topology_match(&config).unwrap_err();
    assert!(
        err.to_string().contains("actor temperature mismatch"),
        "Expected actor temperature mismatch, got: {err:?}"
    );
}

#[test]
fn test_validate_topology_match_different_critic_lr() {
    let agent = make_agent();
    let mut config = default_config();
    config.critic.lr = 0.05;
    let err = agent.validate_topology_match(&config).unwrap_err();
    assert!(
        err.to_string().contains("critic lr mismatch"),
        "Expected critic lr mismatch, got: {err:?}"
    );
}

#[test]
fn test_apply_config_updates_gamma() {
    let mut agent = make_agent();
    assert!((agent.config.gamma - 0.95).abs() < 1e-12);
    let mut new_config = default_config();
    new_config.gamma = 0.99;
    agent.apply_config(new_config).unwrap();
    assert!((agent.config.gamma - 0.99).abs() < 1e-12);
}

#[test]
fn test_apply_config_preserves_actor_weights() {
    let mut agent = make_agent();
    let w_before = agent.actor.layers[0].weights.data.clone();
    let b_before = agent.actor.layers[0].bias.clone();
    let mut new_config = default_config();
    new_config.gamma = 0.99;
    new_config.entropy_coeff = 0.05;
    agent.apply_config(new_config).unwrap();
    assert_eq!(agent.actor.layers[0].weights.data, w_before);
    assert_eq!(agent.actor.layers[0].bias, b_before);
}

#[test]
fn test_apply_config_preserves_critic_weights() {
    let mut agent = make_agent();
    let w_before = agent.critic.layers[0].weights.data.clone();
    let b_before = agent.critic.layers[0].bias.clone();
    let mut new_config = default_config();
    new_config.scale_floor = 0.0;
    new_config.scale_ceil = 3.0;
    agent.apply_config(new_config).unwrap();
    assert_eq!(agent.critic.layers[0].weights.data, w_before);
    assert_eq!(agent.critic.layers[0].bias, b_before);
}

#[test]
fn test_apply_config_rejects_topology_mismatch() {
    let mut agent = make_agent();
    let mut new_config = default_config();
    new_config.actor.hidden_layers[0].size = 27;
    let result = agent.apply_config(new_config);
    assert!(result.is_err());
    let err_msg = result.unwrap_err().to_string();
    assert!(
        err_msg.contains("actor hidden layer 0 size mismatch"),
        "Expected topology error, got: {err_msg}"
    );
}

#[test]
fn test_apply_config_rejects_invalid_config() {
    let mut agent = make_agent();
    let mut new_config = default_config();
    new_config.gamma = 1.5;
    let result = agent.apply_config(new_config);
    assert!(result.is_err());
    let err_msg = result.unwrap_err().to_string();
    assert!(
        err_msg.contains("gamma"),
        "Expected gamma validation error, got: {err_msg}"
    );
}

#[test]
fn test_apply_config_resets_cl_state() {
    let mut agent = make_agent();
    let state = vec![0.5; 9];
    let _ = agent.step(&state, 0.0, false);
    let _ = agent.step(&state, 1.0, false);
    assert!(agent.state_prev.is_some());

    let mut new_config = default_config();
    new_config.gamma = 0.99;
    agent.apply_config(new_config).unwrap();

    assert!(agent.state_prev.is_none());
    assert!(agent.action_prev.is_none());
    assert!(agent.infer_prev.is_none());
    assert!(agent.valid_actions_prev.is_none());
    assert_eq!(agent.actor_plastic_step_counter, 0);
    assert_eq!(agent.critic_plastic_step_counter, 0);
    assert_eq!(agent.actor_frozen_steps, 0);
    assert_eq!(agent.critic_frozen_steps, 0);
    assert!(fl(agent.last_td_error).abs() < 1e-12);
    assert!(!agent.actor_last_phase_reliable);
    assert!(!agent.critic_last_phase_reliable);
    assert!(agent.surprises().is_empty());
    assert!(agent.td_errors().is_empty());
    assert!(agent.td_buffer.is_empty());
}

#[test]
fn test_apply_config_rebuilds_hysteresis() {
    let mut agent = make_agent();
    assert!(agent.actor_hysteresis.is_none());
    assert!(agent.critic_hysteresis.is_none());

    let mut new_config = default_config();
    new_config.actor_hysteresis = true;
    new_config.critic_hysteresis = true;
    agent.apply_config(new_config).unwrap();

    assert!(agent.actor_hysteresis.is_some());
    assert!(agent.critic_hysteresis.is_some());
    let ah = agent.actor_hysteresis.as_ref().unwrap();
    assert_eq!(ah.state, PlasticityState::Plastic);
    assert_eq!(ah.fast.k, 0);
    assert_eq!(ah.slow.k, 0);
}

#[test]
fn test_apply_config_disables_hysteresis() {
    let mut config = default_config();
    config.actor_hysteresis = true;
    config.critic_hysteresis = true;
    let mut agent: PcActorCritic = PcActorCritic::new(CpuLinAlg::new(), config, 42).unwrap();
    assert!(agent.actor_hysteresis.is_some());

    let new_config = default_config();
    agent.apply_config(new_config).unwrap();
    assert!(agent.actor_hysteresis.is_none());
    assert!(agent.critic_hysteresis.is_none());
}

#[test]
fn test_apply_config_rebuilds_decay_factors() {
    let mut agent = make_agent();
    assert!(agent
        .actor_decays()
        .iter()
        .all(|&f| (f - 1.0).abs() < 1e-12));

    let mut new_config = default_config();
    new_config.consolidation_decay = 0.9;
    agent.apply_config(new_config).unwrap();

    assert_eq!(agent.actor_decays().len(), 1);
    assert!((agent.actor_decays()[0] - 1.0).abs() < 1e-12);
}

#[test]
fn test_apply_config_allocates_fisher_when_ewc_enabled() {
    let mut agent = make_agent();
    assert!(agent.actor_fisher.is_empty());
    assert!(agent.critic_fisher.is_empty());

    let mut new_config = default_config();
    new_config.ewc_lambda = 1.0;
    new_config.actor_hysteresis = true;
    new_config.critic_hysteresis = true;
    agent.apply_config(new_config).unwrap();

    assert_eq!(agent.actor_fisher.len(), agent.actor.layers.len());
    assert_eq!(agent.critic_fisher.len(), agent.critic.layers.len());
}

#[test]
fn test_apply_config_deallocates_fisher_when_ewc_disabled() {
    let mut config = default_config();
    config.ewc_lambda = 1.0;
    config.actor_hysteresis = true;
    config.critic_hysteresis = true;
    let mut agent: PcActorCritic = PcActorCritic::new(CpuLinAlg::new(), config, 42).unwrap();
    assert!(!agent.actor_fisher.is_empty());

    let new_config = default_config();
    agent.apply_config(new_config).unwrap();
    assert!(agent.actor_fisher.is_empty());
    assert!(agent.critic_fisher.is_empty());
}

#[test]
fn test_apply_config_resizes_gae_trace() {
    let mut agent = make_agent();
    assert!(agent.trace().is_empty());

    let mut new_config = default_config();
    new_config.gae_lambda = Some(0.95);
    agent.apply_config(new_config).unwrap();
    assert_eq!(agent.trace().len(), 9);
    assert!(agent.trace().iter().all(|&v| v == 0.0));

    let new_config2 = default_config();
    agent.apply_config(new_config2).unwrap();
    assert!(agent.trace().is_empty());
}

#[test]
fn test_apply_config_switches_td_steps() {
    let mut agent = make_agent();
    assert_eq!(agent.config.td_steps, 0);
    assert!(agent.td_buffer.is_empty());

    let mut new_config = default_config();
    new_config.td_steps = 4;
    agent.apply_config(new_config).unwrap();
    assert_eq!(agent.config.td_steps, 4);
    assert!(agent.td_buffer.is_empty());
}

#[test]
fn test_apply_config_rejects_gae_with_td_steps() {
    let mut agent = make_agent();
    let mut new_config = default_config();
    new_config.gae_lambda = Some(0.95);
    new_config.td_steps = 4;
    let result = agent.apply_config(new_config);
    assert!(result.is_err());
    let err_msg = result.unwrap_err().to_string();
    assert!(
        err_msg.contains("mutually exclusive"),
        "Expected mutual exclusion error, got: {err_msg}"
    );
}

#[test]
fn test_apply_config_then_step_works() {
    let mut agent = make_agent();
    let state = vec![0.5; 9];
    let _ = agent.step(&state, 0.0, false);
    let _ = agent.step(&state, 1.0, false);

    let mut new_config = default_config();
    new_config.gamma = 0.99;
    new_config.entropy_coeff = 0.0;
    agent.apply_config(new_config).unwrap();

    let action = agent.step(&state, 0.0, false);
    assert!(action < 9);
    let action2 = agent.step(&state, 1.0, false);
    assert!(action2 < 9);
    let _ = agent.step(&state, 0.0, true);
}

#[test]
fn test_apply_config_then_step_masked_works() {
    let mut agent = make_agent();
    let state = vec![0.5; 9];
    let valid = vec![0, 3, 6];
    let _ = agent.step_masked(&state, &valid, 0.0, false).unwrap();

    let mut new_config = default_config();
    new_config.surprise_low = 0.01;
    new_config.surprise_high = 0.2;
    agent.apply_config(new_config).unwrap();

    let action = agent.step_masked(&state, &valid, 0.0, false).unwrap();
    assert!(valid.contains(&action));
    let _ = agent.step_masked(&state, &valid, 1.0, true).unwrap();
}

#[test]
fn test_apply_config_mid_td_n_episode_clears_buffer() {
    let mut config = default_config();
    config.td_steps = 4;
    let mut agent: PcActorCritic = PcActorCritic::new(CpuLinAlg::new(), config, 42).unwrap();
    let state = vec![0.5; 9];
    let _ = agent.step(&state, 0.0, false);
    let _ = agent.step(&state, 1.0, false);
    assert!(
        !agent.td_buffer.is_empty(),
        "TD buffer should have transitions"
    );

    let mut new_config = default_config();
    new_config.td_steps = 0;
    agent.apply_config(new_config).unwrap();
    assert!(agent.td_buffer.is_empty());

    let action = agent.step(&state, 0.0, false);
    assert!(action < 9);
    let _ = agent.step(&state, 0.5, true);
}

#[test]
fn test_apply_config_new_gamma_takes_effect() {
    let mut agent_a = make_agent();
    let mut agent_b = make_agent();
    let state = vec![0.5; 9];

    let _ = agent_a.step(&state, 0.0, false);
    let _ = agent_a.step(&state, 1.0, false);
    let _ = agent_a.step(&state, 0.5, true);
    let _ = agent_b.step(&state, 0.0, false);
    let _ = agent_b.step(&state, 1.0, false);
    let _ = agent_b.step(&state, 0.5, true);

    assert_eq!(
        agent_a.actor.layers[0].weights.data,
        agent_b.actor.layers[0].weights.data
    );

    let mut new_config = default_config();
    new_config.gamma = 0.5;
    agent_b.apply_config(new_config).unwrap();

    let _ = agent_a.step(&state, 0.0, false);
    let _ = agent_a.step(&state, 1.0, false);
    let _ = agent_a.step(&state, 0.5, true);
    let _ = agent_b.step(&state, 0.0, false);
    let _ = agent_b.step(&state, 1.0, false);
    let _ = agent_b.step(&state, 0.5, true);

    assert_ne!(
        agent_a.actor.layers[0].weights.data, agent_b.actor.layers[0].weights.data,
        "Different gamma should produce different weight updates"
    );
    assert!((agent_b.config.gamma - 0.5).abs() < 1e-12);
}

#[test]
fn test_apply_config_preserves_weights_across_multiple_calls() {
    let mut agent = make_agent();
    let w_orig = agent.actor.layers[0].weights.data.clone();

    let mut c1 = default_config();
    c1.gamma = 0.9;
    agent.apply_config(c1).unwrap();
    assert_eq!(agent.actor.layers[0].weights.data, w_orig);

    let mut c2 = default_config();
    c2.gamma = 0.99;
    c2.entropy_coeff = 0.0;
    agent.apply_config(c2).unwrap();
    assert_eq!(agent.actor.layers[0].weights.data, w_orig);

    let mut c3 = default_config();
    c3.actor_hysteresis = true;
    c3.ewc_lambda = 0.5;
    agent.apply_config(c3).unwrap();
    assert_eq!(agent.actor.layers[0].weights.data, w_orig);
}

#[test]
fn test_apply_config_gae_to_td_switch() {
    let mut config = default_config();
    config.gae_lambda = Some(0.95);
    let mut agent: PcActorCritic = PcActorCritic::new(CpuLinAlg::new(), config, 42).unwrap();
    assert_eq!(agent.trace().len(), 9);

    let mut new_config = default_config();
    new_config.td_steps = 4;
    new_config.gae_lambda = None;
    agent.apply_config(new_config).unwrap();

    assert!(agent.trace().is_empty());
    assert_eq!(agent.config.td_steps, 4);
    assert!(agent.config.gae_lambda.is_none());

    let state = vec![0.5; 9];
    let action = agent.step(&state, 0.0, false);
    assert!(action < 9);
    let _ = agent.step(&state, 1.0, true);
}

#[test]
fn test_apply_config_enables_adaptive_consolidation() {
    let mut agent = make_agent();
    assert!(agent.layer_errors().is_empty());

    let mut new_config = default_config();
    new_config.adaptive_consolidation = true;
    agent.apply_config(new_config).unwrap();

    assert_eq!(agent.layer_errors().len(), 1);
    assert!((agent.layer_errors()[0]).abs() < 1e-12);
}

#[test]
fn test_polyak_target_allocated_when_lambda_positive() {
    let mut cfg = default_config();
    cfg.distillation_lambda_polyak = 0.1;
    cfg.polyak_tau = 0.005;
    cfg.distillation_lambda_frozen = 0.0;
    let agent: PcActorCritic = PcActorCritic::new(CpuLinAlg::new(), cfg, 42).unwrap();

    assert!(
        agent.polyak_target.is_some(),
        "polyak_target must be allocated when lambda > 0"
    );

    let polyak = agent.polyak_target.as_ref().unwrap();
    let state = vec![0.5; 9];
    let live_infer = agent.actor.infer(&state);
    let polyak_infer = polyak.infer(&state);
    let live_logits = CpuLinAlg::new().vec_to_vec(&live_infer.y_conv);
    let polyak_logits = CpuLinAlg::new().vec_to_vec(&polyak_infer.y_conv);
    let max_err: f64 = live_logits
        .iter()
        .zip(polyak_logits.iter())
        .map(|(a, b)| (a - b).abs())
        .fold(0.0_f64, f64::max);
    assert!(
        max_err < 1e-12,
        "polyak target must be identical to live at t=0, max_err={max_err}"
    );
}

#[test]
fn test_polyak_target_not_allocated_when_lambda_zero() {
    let mut cfg = default_config();
    cfg.distillation_lambda_polyak = 0.0;
    cfg.polyak_tau = 0.005;
    cfg.distillation_lambda_frozen = 0.0;
    let agent: PcActorCritic = PcActorCritic::new(CpuLinAlg::new(), cfg, 42).unwrap();

    assert!(
        agent.polyak_target.is_none(),
        "polyak_target must be None when lambda == 0"
    );
}

#[test]
fn test_polyak_target_tracks_live_with_lag() {
    let mut cfg = default_config();
    cfg.distillation_lambda_polyak = 0.1;
    cfg.polyak_tau = 0.01;
    cfg.distillation_lambda_frozen = 0.0;
    cfg.entropy_coeff = 0.0;
    let mut agent: PcActorCritic = PcActorCritic::new(CpuLinAlg::new(), cfg, 42).unwrap();

    let polyak_init = agent.polyak_target.as_ref().unwrap().copy();

    let state = vec![0.1, 0.2, 0.3, 0.4, 0.5, 0.6, 0.7, 0.8, 0.9];
    let valid = vec![0, 1, 2, 3, 4, 5, 6, 7, 8];

    for _ in 0..100 {
        let _ = agent.step_masked(&state, &valid, 1.0, false);
    }
    let _ = agent.step_masked(&state, &valid, 0.0, true);

    let polyak_now = agent.polyak_target.as_ref().unwrap();
    let test_state = vec![0.5; 9];
    let init_logits = CpuLinAlg::new()
        .vec_to_vec(&polyak_init.infer(&test_state).y_conv);
    let now_logits = CpuLinAlg::new()
        .vec_to_vec(&polyak_now.infer(&test_state).y_conv);
    let polyak_drift: f64 = init_logits
        .iter()
        .zip(now_logits.iter())
        .map(|(a, b)| (a - b).abs())
        .fold(0.0_f64, f64::max);

    let live_logits = CpuLinAlg::new()
        .vec_to_vec(&agent.actor.infer(&test_state).y_conv);
    let live_drift: f64 = init_logits
        .iter()
        .zip(live_logits.iter())
        .map(|(a, b)| (a - b).abs())
        .fold(0.0_f64, f64::max);

    assert!(
        polyak_drift > 1e-10,
        "polyak target must have moved after 100 steps, drift={polyak_drift}"
    );
    assert!(
        live_drift > polyak_drift,
        "live actor must drift more than polyak target (live={live_drift}, polyak={polyak_drift})"
    );
}

#[test]
fn test_kl_polyak_pulls_live_toward_polyak() {
    let mut cfg = default_config();
    cfg.distillation_lambda_polyak = 1.0;
    cfg.polyak_tau = 0.001;
    cfg.distillation_lambda_frozen = 0.0;
    cfg.entropy_coeff = 0.0;
    cfg.scale_floor = 1.0;
    cfg.scale_ceil = 2.0;
    let mut agent: PcActorCritic = PcActorCritic::new(CpuLinAlg::new(), cfg, 42).unwrap();

    let state = vec![0.1, 0.2, 0.3, 0.4, 0.5, 0.6, 0.7, 0.8, 0.9];
    let valid = vec![0, 1, 2, 3, 4, 5, 6, 7, 8];

    let polyak_logits_before = {
        let polyak = agent.polyak_target.as_ref().unwrap();
        let infer = polyak.infer(&state);
        CpuLinAlg::new().vec_to_vec(&infer.y_conv)
    };

    for _ in 0..10 {
        let _ = agent.step_masked(&state, &valid, 10.0, false);
    }

    let live_infer_pre = agent.actor.infer(&state);
    let live_logits_pre = CpuLinAlg::new().vec_to_vec(&live_infer_pre.y_conv);

    let kl_before = compute_kl_divergence(&live_logits_pre, &polyak_logits_before, &valid);

    let _ = agent.step_masked(&state, &valid, 0.0, false);

    let live_infer_post = agent.actor.infer(&state);
    let live_logits_post = CpuLinAlg::new().vec_to_vec(&live_infer_post.y_conv);
    let polyak_logits_after = {
        let polyak = agent.polyak_target.as_ref().unwrap();
        CpuLinAlg::new().vec_to_vec(&polyak.infer(&state).y_conv)
    };

    let kl_after = compute_kl_divergence(&live_logits_post, &polyak_logits_after, &valid);

    assert!(
        kl_after < kl_before,
        "KL must decrease: before={kl_before}, after={kl_after}"
    );
}

#[test]
fn test_frozen_champion_allocated_when_lambda_positive() {
    let mut cfg = default_config();
    cfg.distillation_lambda_frozen = 0.1;
    let agent: PcActorCritic = PcActorCritic::new(CpuLinAlg::new(), cfg, 42).unwrap();

    assert!(
        agent.frozen_champion.is_some(),
        "frozen_champion must be allocated when distillation_lambda_frozen > 0"
    );

    let frozen = agent.frozen_champion.as_ref().unwrap();
    let state = vec![0.5; 9];
    let live_infer = agent.actor.infer(&state);
    let frozen_infer = frozen.infer(&state);
    let live_logits = CpuLinAlg::new().vec_to_vec(&live_infer.y_conv);
    let frozen_logits = CpuLinAlg::new().vec_to_vec(&frozen_infer.y_conv);
    let max_err: f64 = live_logits
        .iter()
        .zip(frozen_logits.iter())
        .map(|(a, b)| (a - b).abs())
        .fold(0.0_f64, f64::max);
    assert!(
        max_err < 1e-12,
        "frozen champion must be identical to live at t=0, max_err={max_err}"
    );
}

#[test]
fn test_frozen_champion_never_updates_automatically() {
    let mut cfg = default_config();
    cfg.distillation_lambda_frozen = 0.1;
    cfg.distillation_lambda_polyak = 0.0;
    cfg.entropy_coeff = 0.0;
    let mut agent: PcActorCritic = PcActorCritic::new(CpuLinAlg::new(), cfg, 42).unwrap();

    let frozen_init = agent.frozen_champion.as_ref().unwrap().copy();
    let test_state = vec![0.5; 9];
    let init_logits = CpuLinAlg::new()
        .vec_to_vec(&frozen_init.infer(&test_state).y_conv);

    let state = vec![0.1, 0.2, 0.3, 0.4, 0.5, 0.6, 0.7, 0.8, 0.9];
    let valid = vec![0, 1, 2, 3, 4, 5, 6, 7, 8];

    for _ in 0..200 {
        let _ = agent.step_masked(&state, &valid, 1.0, false);
    }
    let _ = agent.step_masked(&state, &valid, 0.0, true);

    let frozen_now = agent.frozen_champion.as_ref().unwrap();
    let now_logits = CpuLinAlg::new()
        .vec_to_vec(&frozen_now.infer(&test_state).y_conv);
    let max_err: f64 = init_logits
        .iter()
        .zip(now_logits.iter())
        .map(|(a, b)| (a - b).abs())
        .fold(0.0_f64, f64::max);
    assert!(
        max_err < 1e-15,
        "frozen champion must never update automatically, max_err={max_err}"
    );
}

#[test]
fn test_kl_frozen_pulls_live_toward_frozen_after_drift() {
    let mut cfg = default_config();
    cfg.distillation_lambda_frozen = 5.0;
    cfg.distillation_lambda_polyak = 0.0;
    cfg.entropy_coeff = 0.0;
    cfg.scale_floor = 1.0;
    cfg.scale_ceil = 2.0;
    let mut agent: PcActorCritic = PcActorCritic::new(CpuLinAlg::new(), cfg, 42).unwrap();

    let state = vec![0.1, 0.2, 0.3, 0.4, 0.5, 0.6, 0.7, 0.8, 0.9];
    let valid = vec![0, 1, 2, 3, 4, 5, 6, 7, 8];

    let frozen_logits = {
        let frozen = agent.frozen_champion.as_ref().unwrap();
        CpuLinAlg::new().vec_to_vec(&frozen.infer(&state).y_conv)
    };

    for _ in 0..100 {
        let _ = agent.step_masked(&state, &valid, 10.0, false);
    }
    let _ = agent.step_masked(&state, &valid, 0.0, true);

    let live_logits_pre = CpuLinAlg::new().vec_to_vec(&agent.actor.infer(&state).y_conv);
    let kl_before = compute_kl_divergence(&live_logits_pre, &frozen_logits, &valid);
    assert!(
        kl_before > 1e-4,
        "live must have drifted from frozen, kl_before={kl_before}"
    );

    for _ in 0..100 {
        let _ = agent.step_masked(&state, &valid, 0.0, false);
    }

    let live_logits_post = CpuLinAlg::new().vec_to_vec(&agent.actor.infer(&state).y_conv);
    let kl_after = compute_kl_divergence(&live_logits_post, &frozen_logits, &valid);

    assert!(
        kl_after < kl_before,
        "KL must decrease when frozen distillation is active: before={kl_before}, after={kl_after}"
    );
}

#[test]
fn test_kl_polyak_and_frozen_additive() {
    let mut cfg = default_config();
    cfg.distillation_lambda_polyak = 0.5;
    cfg.polyak_tau = 0.001;
    cfg.distillation_lambda_frozen = 0.5;
    cfg.entropy_coeff = 0.0;
    cfg.scale_floor = 1.0;
    cfg.scale_ceil = 2.0;
    let mut agent_both: PcActorCritic =
        PcActorCritic::new(CpuLinAlg::new(), cfg.clone(), 42).unwrap();

    let mut cfg_polyak = cfg.clone();
    cfg_polyak.distillation_lambda_frozen = 0.0;
    let mut agent_polyak: PcActorCritic =
        PcActorCritic::new(CpuLinAlg::new(), cfg_polyak, 42).unwrap();

    let mut cfg_frozen = cfg.clone();
    cfg_frozen.distillation_lambda_polyak = 0.0;
    let mut agent_frozen: PcActorCritic =
        PcActorCritic::new(CpuLinAlg::new(), cfg_frozen, 42).unwrap();

    let state = vec![0.1, 0.2, 0.3, 0.4, 0.5, 0.6, 0.7, 0.8, 0.9];
    let valid = vec![0, 1, 2, 3, 4, 5, 6, 7, 8];

    for _ in 0..50 {
        let _ = agent_both.step_masked(&state, &valid, 5.0, false);
        let _ = agent_polyak.step_masked(&state, &valid, 5.0, false);
        let _ = agent_frozen.step_masked(&state, &valid, 5.0, false);
    }

    let logits_both = CpuLinAlg::new()
        .vec_to_vec(&agent_both.actor.infer(&state).y_conv);
    let logits_polyak = CpuLinAlg::new()
        .vec_to_vec(&agent_polyak.actor.infer(&state).y_conv);
    let logits_frozen = CpuLinAlg::new()
        .vec_to_vec(&agent_frozen.actor.infer(&state).y_conv);

    let diff_vs_polyak: f64 = logits_both
        .iter()
        .zip(logits_polyak.iter())
        .map(|(a, b)| (a - b).abs())
        .sum();
    let diff_vs_frozen: f64 = logits_both
        .iter()
        .zip(logits_frozen.iter())
        .map(|(a, b)| (a - b).abs())
        .sum();

    assert!(
        diff_vs_polyak > 1e-8,
        "combined agent must differ from polyak-only: diff={diff_vs_polyak}"
    );
    assert!(
        diff_vs_frozen > 1e-8,
        "combined agent must differ from frozen-only: diff={diff_vs_frozen}"
    );
}

#[test]
fn test_kl_skipped_when_actor_frozen() {
    let mut cfg = default_config();
    cfg.distillation_lambda_polyak = 1.0;
    cfg.polyak_tau = 0.005;
    cfg.distillation_lambda_frozen = 1.0;
    cfg.actor_hysteresis = true;
    cfg.actor_fast_window = 20;
    cfg.actor_slow_window = 100;
    cfg.actor_wake_fraction = 0.5;
    cfg.actor_sleep_fraction = 0.3;
    cfg.entropy_coeff = 0.0;
    cfg.scale_floor = 1.0;
    cfg.scale_ceil = 2.0;
    let mut agent_kl: PcActorCritic =
        PcActorCritic::new(CpuLinAlg::new(), cfg.clone(), 42).unwrap();

    let mut cfg_base = cfg.clone();
    cfg_base.distillation_lambda_polyak = 0.0;
    cfg_base.distillation_lambda_frozen = 0.0;
    let mut agent_base: PcActorCritic =
        PcActorCritic::new(CpuLinAlg::new(), cfg_base, 42).unwrap();

    let state = vec![0.5; 9];
    let valid = vec![0, 1, 2, 3, 4, 5, 6, 7, 8];

    for _ in 0..120 {
        let _ = agent_kl.step_masked(&state, &valid, 0.0, false);
        let _ = agent_base.step_masked(&state, &valid, 0.0, false);
    }

    for _ in 0..200 {
        let _ = agent_kl.step_masked(&state, &valid, 0.0, false);
        let _ = agent_base.step_masked(&state, &valid, 0.0, false);
    }

    if agent_kl.is_actor_frozen() {
        let logits_kl = CpuLinAlg::new()
            .vec_to_vec(&agent_kl.actor.infer(&state).y_conv);
        let logits_base = CpuLinAlg::new()
            .vec_to_vec(&agent_base.actor.infer(&state).y_conv);
        let max_diff: f64 = logits_kl
            .iter()
            .zip(logits_base.iter())
            .map(|(a, b)| (a - b).abs())
            .fold(0.0_f64, f64::max);
        assert!(
            max_diff < 1e-12,
            "when actor is frozen, KL must not be applied; max_diff={max_diff}"
        );
    }
}

#[test]
fn test_apply_config_preserves_anchors_with_unchanged_topology() {
    let mut cfg = default_config();
    cfg.distillation_lambda_polyak = 0.5;
    cfg.polyak_tau = 0.005;
    cfg.distillation_lambda_frozen = 0.5;
    let mut agent: PcActorCritic =
        PcActorCritic::new(CpuLinAlg::new(), cfg.clone(), 42).unwrap();

    let state = vec![0.5; 9];
    let valid = vec![0, 1, 2, 3, 4, 5, 6, 7, 8];
    for _ in 0..20 {
        let _ = agent.step_masked(&state, &valid, 1.0, false);
    }

    let _polyak_logits_before = {
        let p = agent.polyak_target.as_ref().unwrap();
        CpuLinAlg::new().vec_to_vec(&p.infer(&state).y_conv)
    };
    let _frozen_logits_before = {
        let f = agent.frozen_champion.as_ref().unwrap();
        CpuLinAlg::new().vec_to_vec(&f.infer(&state).y_conv)
    };

    cfg.gamma = 0.99;
    agent.apply_config(cfg.clone()).unwrap();

    assert!(
        agent.polyak_target.is_some(),
        "polyak_target must survive apply_config"
    );
    assert!(
        agent.frozen_champion.is_some(),
        "frozen_champion must survive apply_config"
    );

    let polyak_after = agent.polyak_target.as_ref().unwrap();
    let frozen_after = agent.frozen_champion.as_ref().unwrap();
    assert!(!polyak_after.layers.is_empty(), "polyak must have layers");
    assert!(!frozen_after.layers.is_empty(), "frozen must have layers");

    cfg.gamma = 0.90;
    agent.apply_config(cfg).unwrap();
    assert!(
        agent.polyak_target.is_some(),
        "polyak_target must survive second apply_config"
    );
    assert!(
        agent.frozen_champion.is_some(),
        "frozen_champion must survive second apply_config"
    );
}

#[test]
fn test_kl_gradient_zero_for_single_valid_action() {
    let mut cfg = default_config();
    cfg.distillation_lambda_polyak = 1.0;
    cfg.polyak_tau = 0.001;
    cfg.distillation_lambda_frozen = 1.0;
    cfg.entropy_coeff = 0.0;
    cfg.scale_floor = 1.0;
    cfg.scale_ceil = 2.0;
    let mut agent: PcActorCritic = PcActorCritic::new(CpuLinAlg::new(), cfg, 42).unwrap();

    let state = vec![0.1, 0.2, 0.3, 0.4, 0.5, 0.6, 0.7, 0.8, 0.9];

    let valid_all = vec![0, 1, 2, 3, 4, 5, 6, 7, 8];
    for _ in 0..50 {
        let _ = agent.step_masked(&state, &valid_all, 5.0, false);
    }
    let _ = agent.step_masked(&state, &valid_all, 0.0, true);

    let valid_single = vec![3];
    let infer = agent.actor.infer(&state);
    let y_conv_vec = CpuLinAlg::new().vec_to_vec(&infer.y_conv);

    let g_polyak = agent.compute_kl_polyak_gradient(&state, &y_conv_vec, &valid_single);
    let max_polyak: f64 = g_polyak.iter().map(|x| x.abs()).fold(0.0_f64, f64::max);
    assert!(
        max_polyak < 1e-12,
        "Polyak KL gradient must be zero for single valid action; max={max_polyak}"
    );

    let g_frozen = agent.compute_kl_frozen_gradient(&state, &y_conv_vec, &valid_single);
    let max_frozen: f64 = g_frozen.iter().map(|x| x.abs()).fold(0.0_f64, f64::max);
    assert!(
        max_frozen < 1e-12,
        "Frozen KL gradient must be zero for single valid action; max={max_frozen}"
    );
}

#[test]
fn test_kl_gradient_matches_closed_form_finite_diff() {
    let mut cfg = default_config();
    cfg.distillation_lambda_polyak = 1.0;
    cfg.polyak_tau = 0.001;
    cfg.distillation_lambda_frozen = 0.0;
    cfg.entropy_coeff = 0.0;
    let agent: PcActorCritic = PcActorCritic::new(CpuLinAlg::new(), cfg, 42).unwrap();

    let state = vec![0.1, 0.2, 0.3, 0.4, 0.5, 0.6, 0.7, 0.8, 0.9];
    let valid = vec![0, 2, 5, 7];
    let live_infer = agent.actor.infer(&state);
    let y_conv_vec = CpuLinAlg::new().vec_to_vec(&live_infer.y_conv);

    let g_analytical = agent.compute_kl_polyak_gradient(&state, &y_conv_vec, &valid);

    let epsilon = 1e-5;
    let n = y_conv_vec.len();
    let mut g_fd = vec![0.0; n];
    let temp = fl(agent.actor.config.temperature);
    let polyak = agent.polyak_target.as_ref().unwrap();
    let polyak_infer = polyak.infer(&state);
    let polyak_y_conv = CpuLinAlg::new().vec_to_vec(&polyak_infer.y_conv);

    for i in 0..n {
        if !valid.contains(&i) {
            continue;
        }
        let mut y_plus = y_conv_vec.clone();
        y_plus[i] += epsilon;
        let kl_plus = compute_kl_from_logits(&y_plus, &polyak_y_conv, &valid, temp);

        let mut y_minus = y_conv_vec.clone();
        y_minus[i] -= epsilon;
        let kl_minus = compute_kl_from_logits(&y_minus, &polyak_y_conv, &valid, temp);

        g_fd[i] = (kl_plus - kl_minus) / (2.0 * epsilon);
    }

    let max_err: f64 = g_analytical
        .iter()
        .zip(g_fd.iter())
        .map(|(a, b)| (a - b).abs())
        .fold(0.0_f64, f64::max);
    assert!(
        max_err < 1e-4,
        "analytical and finite-diff KL gradients must agree to 1e-4; max_err={max_err}"
    );
}

#[test]
fn test_kl_frozen_moves_hidden_layer_weights_directionally() {

    let actor_cfg = PcActorConfig {
        input_size: 9,
        hidden_layers: vec![
            LayerDef {
                size: 18,
                activation: Activation::Softsign,
            },
            LayerDef {
                size: 12,
                activation: Activation::Softsign,
            },
        ],
        output_size: 9,
        output_activation: Activation::Linear,
        alpha: 0.03,
        tol: 0.01,
        min_steps: 1,
        max_steps: 5,
        lr_weights: 0.001,
        synchronous: true,
        temperature: 1.0,
        local_lambda: 1.0,
        residual: false,
        rezero_init: 0.001,
    };
    let critic_cfg = MlpCriticConfig {
        input_size: 9 + 18 + 12,
        hidden_layers: vec![LayerDef {
            size: 24,
            activation: Activation::Tanh,
        }],
        output_activation: Activation::Linear,
        lr: 0.001,
    };
    let mut cfg = default_config();
    cfg.actor = actor_cfg;
    cfg.critic = critic_cfg;
    cfg.distillation_lambda_frozen = 100.0;
    cfg.distillation_lambda_polyak = 0.0;
    cfg.entropy_coeff = 0.0;
    cfg.scale_floor = 1.0;
    cfg.scale_ceil = 2.0;

    let mut agent: PcActorCritic = PcActorCritic::new(CpuLinAlg::new(), cfg, 42).unwrap();

    let state = vec![0.1, 0.2, 0.3, 0.4, 0.5, 0.6, 0.7, 0.8, 0.9];
    let valid = vec![0, 1, 2, 3, 4, 5, 6, 7, 8];

    let frozen_weights: Vec<Vec<f64>> = agent
        .frozen_champion
        .as_ref()
        .unwrap()
        .layers
        .iter()
        .map(|l| {
            let (rows, cols) = (l.weights.rows, l.weights.cols);
            let mut flat = Vec::with_capacity(rows * cols);
            for r in 0..rows {
                for c in 0..cols {
                    flat.push(l.weights.get(r, c));
                }
            }
            flat
        })
        .collect();

    for _ in 0..50 {
        let _ = agent.step_masked(&state, &valid, 2.0, false);
    }
    let _ = agent.step_masked(&state, &valid, 0.0, true);

    let l2_before: Vec<f64> = agent
        .actor
        .layers
        .iter()
        .zip(frozen_weights.iter())
        .map(|(l, fw)| {
            let (rows, cols) = (l.weights.rows, l.weights.cols);
            let mut sum_sq: f64 = 0.0;
            for r in 0..rows {
                for c in 0..cols {
                    let diff = l.weights.get(r, c) - fw[r * cols + c];
                    sum_sq += diff * diff;
                }
            }
            sum_sq.sqrt()
        })
        .collect();

    for _ in 0..500 {
        let _ = agent.step_masked(&state, &valid, 0.0, false);
    }

    let l2_after: Vec<f64> = agent
        .actor
        .layers
        .iter()
        .zip(frozen_weights.iter())
        .map(|(l, fw)| {
            let (rows, cols) = (l.weights.rows, l.weights.cols);
            let mut sum_sq: f64 = 0.0;
            for r in 0..rows {
                for c in 0..cols {
                    let diff = l.weights.get(r, c) - fw[r * cols + c];
                    sum_sq += diff * diff;
                }
            }
            sum_sq.sqrt()
        })
        .collect();

    let n_layers = l2_before.len();
    for i in 0..n_layers {
        let reduction = 1.0 - l2_after[i] / l2_before[i].max(1e-15);
        assert!(
            reduction >= 0.05,
            "layer {i}: L2 distance to frozen must decrease by >= 5%, \
             before={}, after={}, reduction={:.2}%",
            l2_before[i],
            l2_after[i],
            reduction * 100.0
        );
    }

    let output_reduction = 1.0 - l2_after[n_layers - 1] / l2_before[n_layers - 1].max(1e-15);
    for i in 0..n_layers - 1 {
        let hidden_reduction = 1.0 - l2_after[i] / l2_before[i].max(1e-15);
        assert!(
            output_reduction > hidden_reduction,
            "output layer reduction ({:.2}%) must exceed hidden layer {i} ({:.2}%)",
            output_reduction * 100.0,
            hidden_reduction * 100.0
        );
    }
}

#[test]
fn test_rollback_soft_restores_live_from_polyak() {
    let mut cfg = default_config();
    cfg.distillation_lambda_polyak = 0.1;
    cfg.polyak_tau = 0.005;
    let mut agent: PcActorCritic = PcActorCritic::new(CpuLinAlg::new(), cfg, 42).unwrap();

    let state = vec![0.1, 0.2, 0.3, 0.4, 0.5, 0.6, 0.7, 0.8, 0.9];
    let valid = vec![0, 1, 2, 3, 4, 5, 6, 7, 8];

    for _ in 0..50 {
        let _ = agent.step_masked(&state, &valid, 1.0, false);
    }
    let _ = agent.step_masked(&state, &valid, 0.0, true);

    let polyak_weights: Vec<Vec<f64>> = agent
        .polyak_target
        .as_ref()
        .unwrap()
        .layers
        .iter()
        .map(|l| l.weights.data.clone())
        .collect();

    agent.rollback_soft().unwrap();

    for (i, layer) in agent.actor.layers.iter().enumerate() {
        assert_eq!(
            layer.weights.data, polyak_weights[i],
            "layer {i}: live weights must match polyak after rollback_soft"
        );
    }
}

#[test]
fn test_rollback_soft_resets_actor_trace() {
    let mut cfg = default_config();
    cfg.distillation_lambda_polyak = 0.1;
    cfg.polyak_tau = 0.005;
    cfg.gae_lambda = Some(0.95);
    let mut agent: PcActorCritic = PcActorCritic::new(CpuLinAlg::new(), cfg, 42).unwrap();

    let state = vec![0.1, 0.2, 0.3, 0.4, 0.5, 0.6, 0.7, 0.8, 0.9];
    let valid = vec![0, 1, 2, 3, 4, 5, 6, 7, 8];

    for _ in 0..10 {
        let _ = agent.step_masked(&state, &valid, 1.0, false);
    }

    agent.rollback_soft().unwrap();

    assert!(
        agent.trace().iter().all(|&v| v == 0.0),
        "actor_trace must be zeroed after rollback_soft"
    );
}

#[test]
fn test_rollback_soft_returns_err_when_polyak_disabled() {
    let mut cfg = default_config();
    cfg.distillation_lambda_polyak = 0.0;
    let mut agent: PcActorCritic = PcActorCritic::new(CpuLinAlg::new(), cfg, 42).unwrap();

    let result = agent.rollback_soft();
    assert!(
        result.is_err(),
        "rollback_soft must fail when polyak disabled"
    );
    match result.unwrap_err() {
        PcError::ConfigValidation(msg) => {
            assert!(
                msg.contains("rollback_soft"),
                "error message must mention rollback_soft, got: {msg}"
            );
        }
        other => panic!("expected ConfigValidation, got: {other:?}"),
    }
}

#[test]
fn test_rollback_hard_restores_live_and_polyak_from_frozen() {
    let mut cfg = default_config();
    cfg.distillation_lambda_polyak = 0.1;
    cfg.polyak_tau = 0.005;
    cfg.distillation_lambda_frozen = 0.1;
    let mut agent: PcActorCritic = PcActorCritic::new(CpuLinAlg::new(), cfg, 42).unwrap();

    let frozen_weights: Vec<Vec<f64>> = agent
        .frozen_champion
        .as_ref()
        .unwrap()
        .layers
        .iter()
        .map(|l| l.weights.data.clone())
        .collect();

    let state = vec![0.1, 0.2, 0.3, 0.4, 0.5, 0.6, 0.7, 0.8, 0.9];
    let valid = vec![0, 1, 2, 3, 4, 5, 6, 7, 8];

    for _ in 0..50 {
        let _ = agent.step_masked(&state, &valid, 1.0, false);
    }
    let _ = agent.step_masked(&state, &valid, 0.0, true);

    let critic_before: Vec<Vec<f64>> = agent
        .critic
        .layers
        .iter()
        .map(|l| l.weights.data.clone())
        .collect();

    agent.rollback_hard().unwrap();

    for (i, layer) in agent.actor.layers.iter().enumerate() {
        assert_eq!(
            layer.weights.data, frozen_weights[i],
            "layer {i}: live weights must match frozen after rollback_hard"
        );
    }

    let polyak = agent.polyak_target.as_ref().unwrap();
    for (i, layer) in polyak.layers.iter().enumerate() {
        assert_eq!(
            layer.weights.data, frozen_weights[i],
            "layer {i}: polyak weights must match frozen after rollback_hard"
        );
    }

    for (i, layer) in agent.critic.layers.iter().enumerate() {
        assert_eq!(
            layer.weights.data, critic_before[i],
            "critic layer {i}: weights must be unchanged after rollback_hard"
        );
    }
}

#[test]
fn test_rollback_hard_returns_err_when_frozen_disabled() {
    let mut cfg = default_config();
    cfg.distillation_lambda_frozen = 0.0;
    let mut agent: PcActorCritic = PcActorCritic::new(CpuLinAlg::new(), cfg, 42).unwrap();

    let result = agent.rollback_hard();
    assert!(
        result.is_err(),
        "rollback_hard must fail when frozen disabled"
    );
    match result.unwrap_err() {
        PcError::ConfigValidation(msg) => {
            assert!(
                msg.contains("rollback_hard"),
                "error message must mention rollback_hard, got: {msg}"
            );
        }
        other => panic!("expected ConfigValidation, got: {other:?}"),
    }
}

#[test]
fn test_rollback_hard_clears_fisher_f_ema_preserves_f_total() {
    let mut cfg = default_config();
    cfg.distillation_lambda_frozen = 0.1;
    cfg.ewc_lambda = 1.0;
    cfg.fisher_ema_beta = 0.99;
    cfg.actor_hysteresis = true;
    let mut agent: PcActorCritic = PcActorCritic::new(CpuLinAlg::new(), cfg, 42).unwrap();

    let state = vec![0.1, 0.2, 0.3, 0.4, 0.5, 0.6, 0.7, 0.8, 0.9];
    let valid = vec![0, 1, 2, 3, 4, 5, 6, 7, 8];

    for _ in 0..20 {
        let _ = agent.step_masked(&state, &valid, 1.0, false);
    }
    let _ = agent.step_masked(&state, &valid, 0.0, true);

    let f_ema_sum_before: f64 = agent.actor_fisher[0]
        .f_ema_weights
        .data
        .iter()
        .map(|v| v.abs())
        .sum();
    assert!(
        f_ema_sum_before > 0.0,
        "f_ema must be non-zero before rollback"
    );

    let f_total_before: Vec<f64> = agent.actor_fisher[0].f_total_weights.data.clone();
    let theta_snap_before: Option<Vec<f64>> = agent.actor_fisher[0]
        .theta_snapshot_weights
        .as_ref()
        .map(|m| m.data.clone());

    agent.rollback_hard().unwrap();

    let f_ema_sum_after: f64 = agent.actor_fisher[0]
        .f_ema_weights
        .data
        .iter()
        .map(|v| v.abs())
        .sum();
    assert_eq!(
        f_ema_sum_after, 0.0,
        "f_ema must be zeroed after rollback_hard"
    );

    assert_eq!(
        agent.actor_fisher[0].f_total_weights.data, f_total_before,
        "f_total must be preserved after rollback_hard"
    );

    let theta_snap_after: Option<Vec<f64>> = agent.actor_fisher[0]
        .theta_snapshot_weights
        .as_ref()
        .map(|m| m.data.clone());
    assert_eq!(
        theta_snap_after, theta_snap_before,
        "theta_snapshot must be preserved after rollback_hard"
    );
}

#[test]
fn test_champion_update_replaces_frozen_with_live() {
    let mut cfg = default_config();
    cfg.distillation_lambda_polyak = 0.1;
    cfg.polyak_tau = 0.005;
    cfg.distillation_lambda_frozen = 0.1;
    let mut agent: PcActorCritic = PcActorCritic::new(CpuLinAlg::new(), cfg, 42).unwrap();

    let state = vec![0.1, 0.2, 0.3, 0.4, 0.5, 0.6, 0.7, 0.8, 0.9];
    let valid = vec![0, 1, 2, 3, 4, 5, 6, 7, 8];

    for _ in 0..50 {
        let _ = agent.step_masked(&state, &valid, 1.0, false);
    }
    let _ = agent.step_masked(&state, &valid, 0.0, true);

    let live_weights: Vec<Vec<f64>> = agent
        .actor
        .layers
        .iter()
        .map(|l| l.weights.data.clone())
        .collect();
    let polyak_weights: Vec<Vec<f64>> = agent
        .polyak_target
        .as_ref()
        .unwrap()
        .layers
        .iter()
        .map(|l| l.weights.data.clone())
        .collect();

    agent.champion_update().unwrap();

    let frozen = agent.frozen_champion.as_ref().unwrap();
    for (i, layer) in frozen.layers.iter().enumerate() {
        assert_eq!(
            layer.weights.data, live_weights[i],
            "layer {i}: frozen must match live after champion_update"
        );
    }

    let polyak = agent.polyak_target.as_ref().unwrap();
    for (i, layer) in polyak.layers.iter().enumerate() {
        assert_eq!(
            layer.weights.data, polyak_weights[i],
            "layer {i}: polyak must be unchanged after champion_update"
        );
    }
}

#[test]
fn test_champion_update_returns_err_when_frozen_disabled() {
    let mut cfg = default_config();
    cfg.distillation_lambda_frozen = 0.0;
    let mut agent: PcActorCritic = PcActorCritic::new(CpuLinAlg::new(), cfg, 42).unwrap();

    let result = agent.champion_update();
    assert!(
        result.is_err(),
        "champion_update must fail when frozen disabled"
    );
    match result.unwrap_err() {
        PcError::ConfigValidation(msg) => {
            assert!(
                msg.contains("champion_update"),
                "error message must mention champion_update, got: {msg}"
            );
        }
        other => panic!("expected ConfigValidation, got: {other:?}"),
    }
}

#[test]
fn test_rollback_hard_preserves_ewc_theta_snapshot_across_continued_learning() {
    let mut cfg = default_config();
    cfg.distillation_lambda_frozen = 0.1;
    cfg.ewc_lambda = 1.0;
    cfg.fisher_ema_beta = 0.99;
    cfg.actor_hysteresis = true;
    let mut agent: PcActorCritic = PcActorCritic::new(CpuLinAlg::new(), cfg, 42).unwrap();

    let state = vec![0.1, 0.2, 0.3, 0.4, 0.5, 0.6, 0.7, 0.8, 0.9];
    let valid = vec![0, 1, 2, 3, 4, 5, 6, 7, 8];

    for _ in 0..200 {
        let _ = agent.step_masked(&state, &valid, 1.0, false);
    }
    let _ = agent.step_masked(&state, &valid, 0.0, true);

    let theta_pre: Vec<Option<Vec<f64>>> = agent
        .actor_fisher
        .iter()
        .map(|f| f.theta_snapshot_weights.as_ref().map(|m| m.data.clone()))
        .collect();

    agent.rollback_hard().unwrap();

    for (i, fisher) in agent.actor_fisher.iter().enumerate() {
        let snap = fisher
            .theta_snapshot_weights
            .as_ref()
            .map(|m| m.data.clone());
        assert_eq!(
            snap, theta_pre[i],
            "layer {i}: theta_snapshot must be preserved after rollback_hard"
        );
    }

    for fisher in &agent.actor_fisher {
        let sum: f64 = fisher.f_ema_weights.data.iter().map(|v| v.abs()).sum();
        assert_eq!(sum, 0.0, "f_ema must be zeroed after rollback_hard");
    }

    for _ in 0..20 {
        let _ = agent.step_masked(&state, &valid, 1.0, false);
    }

    for (i, fisher) in agent.actor_fisher.iter().enumerate() {
        let snap = fisher
            .theta_snapshot_weights
            .as_ref()
            .map(|m| m.data.clone());
        assert_eq!(
            snap, theta_pre[i],
            "layer {i}: theta_snapshot must remain stable after 20 post-rollback steps"
        );
    }

    let f_ema_sum: f64 = agent.actor_fisher[0]
        .f_ema_weights
        .data
        .iter()
        .map(|v| v.abs())
        .sum();
    assert!(
        f_ema_sum > 0.0,
        "f_ema must grow during post-rollback learning"
    );
}

#[test]
fn test_rollback_hard_cooldown_blocks_reentry_within_window() {
    let mut cfg = default_config();
    cfg.distillation_lambda_frozen = 0.1;
    let mut agent: PcActorCritic = PcActorCritic::new(CpuLinAlg::new(), cfg, 42).unwrap();

    let state = vec![0.1, 0.2, 0.3, 0.4, 0.5, 0.6, 0.7, 0.8, 0.9];
    let valid = vec![0, 1, 2, 3, 4, 5, 6, 7, 8];

    assert!(
        agent.rollback_hard().is_ok(),
        "first rollback_hard must succeed"
    );

    let rejected = agent.rollback_hard();
    assert!(
        rejected.is_err(),
        "immediate second rollback_hard must be rejected by cooldown"
    );


    for _ in 0..110 {
        let _ = agent.step_masked(&state, &valid, 0.5, false);
    }

    assert!(
        agent.rollback_hard().is_ok(),
        "rollback_hard must succeed after cooldown elapsed"
    );
}

#[test]
fn test_rollback_hard_cooldown_window_is_configurable() {
    let mut cfg = default_config();
    cfg.distillation_lambda_frozen = 0.1;
    let mut agent: PcActorCritic = PcActorCritic::new(CpuLinAlg::new(), cfg, 42).unwrap();

    assert!(
        agent.rollback_hard().is_ok(),
        "first rollback_hard must succeed"
    );

    agent.set_rollback_hard_cooldown(0);

    assert!(
        agent.rollback_hard().is_ok(),
        "rollback_hard must succeed when cooldown is 0"
    );

    agent.set_rollback_hard_cooldown(DEFAULT_ROLLBACK_HARD_COOLDOWN);

    assert!(
        agent.rollback_hard().is_err(),
        "rollback_hard must be rejected after restoring cooldown"
    );
}

#[test]
fn test_learn_continuous_inner_replay_mode_skips_online_side_effects() {
    let mut cfg = default_config();
    cfg.gae_lambda = Some(0.95);

    let mut agent: PcActorCritic = PcActorCritic::new(CpuLinAlg::new(), cfg, 42).unwrap();

    let trace_len = agent.trace().len();
    assert!(trace_len > 0, "GAE trace must have non-zero length");
    for v in &mut agent.actor_trace {
        *v = sc(0.5);
    }
    let trace_before: Vec<f64> = agent.trace().clone();

    agent.td_error_buffer.push_back(sc(0.1));
    let td_buffer_len_before = agent.td_errors().len();

    agent.steps_since_last_rollback_hard = 42;
    let cooldown_before = agent.steps_since_last_rollback_hard;

    let weights_before = agent.actor.layers[0].weights.data.clone();

    let state = vec![1.0, -1.0, 0.5, -0.5, 1.0, -1.0, 0.5, -0.5, 0.0];
    let next_state = vec![0.5, 0.5, -0.5, 0.0, 1.0, -1.0, 0.5, -0.5, 0.0];
    let infer = agent.actor.infer(&state);
    let next_infer = agent.actor.infer(&next_state);

    let valid_actions: Vec<usize> = (0..agent.config.actor.output_size).collect();

    let replay_step = LearnStep {
        state: &scalars(&state),
        infer: &infer,
        action: 0,
        valid_actions: &valid_actions,
        reward: sc(1.0),
        next_state: &scalars(&next_state),
        next_infer: &next_infer,
        done: false,
        gamma: sc(agent.config.gamma),
        pre_v_s: None,
        pre_td_error: None,
        mode: LearnMode::Replay,
    };

    let _ = agent
        .learn_continuous_inner(&replay_step)
        .expect("replay inner learn must not error");

    assert_eq!(
        agent.trace(), trace_before,
        "Replay mode must not mutate actor_trace"
    );
    assert_eq!(
        agent.td_errors().len(),
        td_buffer_len_before,
        "Replay mode must not push into td_error_buffer"
    );
    assert_eq!(
        agent.steps_since_last_rollback_hard, cooldown_before,
        "Replay mode must not increment steps_since_last_rollback_hard"
    );
    assert_ne!(
        agent.actor.layers[0].weights.data, weights_before,
        "Replay mode must still update actor weights"
    );
}

#[test]
fn test_cooldown_counter_increments_on_nan_td_error_in_online_mode() {
    let mut agent: PcActorCritic =
        PcActorCritic::new(CpuLinAlg::new(), default_config(), 42).unwrap();

    let weights_before = agent.actor.layers[0].weights.data.clone();

    agent.steps_since_last_rollback_hard = 0;

    let state = vec![1.0, -1.0, 0.5, -0.5, 1.0, -1.0, 0.5, -0.5, 0.0];
    let next_state = vec![0.5, 0.5, -0.5, 0.0, 1.0, -1.0, 0.5, -0.5, 0.0];
    let infer = agent.actor.infer(&state);
    let next_infer = agent.actor.infer(&next_state);
    let valid_actions: Vec<usize> = (0..agent.config.actor.output_size).collect();

    let nan_step = LearnStep {
        state: &scalars(&state),
        infer: &infer,
        action: 0,
        valid_actions: &valid_actions,
        reward: sc(f64::NAN),
        next_state: &scalars(&next_state),
        next_infer: &next_infer,
        done: false,
        gamma: sc(agent.config.gamma),
        pre_v_s: None,
        pre_td_error: None,
        mode: LearnMode::Online,
    };

    let loss = agent
        .learn_continuous_inner(&nan_step)
        .expect("NaN guard must return Ok(0.0), never Err");

    assert_eq!(loss, 0.0, "NaN guard must short-circuit with Ok(0.0)");
    assert_eq!(
        agent.actor.layers[0].weights.data, weights_before,
        "NaN guard must leave actor weights untouched"
    );

    assert_eq!(
        agent.steps_since_last_rollback_hard, 1,
        "Cooldown counter must increment on Online NaN step \
         (increment must precede NaN guard in learn_continuous_inner)"
    );

    let _ = agent
        .learn_continuous_inner(&nan_step)
        .expect("NaN guard must return Ok(0.0), never Err");
    assert_eq!(
        agent.steps_since_last_rollback_hard, 2,
        "Cooldown counter must increment on every Online step, \
         including NaN-guarded ones"
    );
}

#[test]
fn test_replay_learn_no_buffer_no_op() {
    let mut agent: PcActorCritic = make_agent();
    assert!(
        agent.replay_buffer.is_none(),
        "default agent must have no replay buffer"
    );
    let w_before = agent.actor.layers[0].weights.data.clone();
    let cw_before = agent.critic.layers[0].weights.data.clone();

    agent
        .replay_learn(64)
        .expect("replay_learn on buffer-less agent must be Ok(()) no-op");

    assert_eq!(agent.actor.layers[0].weights.data, w_before);
    assert_eq!(agent.critic.layers[0].weights.data, cw_before);
}

#[test]
fn test_replay_learn_updates_weights() {
    let cfg = replay_config(100, 0);
    let mut agent: PcActorCritic = PcActorCritic::new(CpuLinAlg::new(), cfg, 42).unwrap();
    assert!(
        agent.replay_buffer.is_some(),
        "replay_training_capacity>0 must allocate a buffer"
    );

    populate_replay_buffer(&mut agent, 32);

    let actor_w_before = agent.actor.layers[0].weights.data.clone();
    let critic_w_before = agent.critic.layers[0].weights.data.clone();

    agent.replay_learn(32).expect("replay_learn must succeed");

    assert!(
        l2_delta(&agent.actor.layers[0].weights.data, &actor_w_before) > 1e-6,
        "actor weights must change under replay_learn"
    );
    assert!(
        l2_delta(&agent.critic.layers[0].weights.data, &critic_w_before) > 1e-6,
        "critic weights must change under replay_learn"
    );
}

#[test]
fn test_replay_learn_does_not_mutate_buffer() {
    let cfg = replay_config(100, 0);
    let mut agent: PcActorCritic = PcActorCritic::new(CpuLinAlg::new(), cfg, 42).unwrap();
    populate_replay_buffer(&mut agent, 32);

    let training_before = agent
        .replay_buffer
        .as_ref()
        .unwrap()
        .training_memories
        .clone();
    let recent_before = agent
        .replay_buffer
        .as_ref()
        .unwrap()
        .recent_memories
        .clone();

    agent.replay_learn(32).expect("replay_learn must succeed");

    let buf = agent.replay_buffer.as_ref().unwrap();
    assert_eq!(
        buf.training_memories, training_before,
        "training memories must be untouched by replay_learn"
    );
    assert_eq!(
        buf.recent_memories, recent_before,
        "recent memories must be untouched by replay_learn"
    );
}

#[test]
fn test_replay_learn_coexists_with_ewc() {
    let mut cfg = replay_config(100, 0);
    cfg.ewc_lambda = 0.1;
    let mut agent: PcActorCritic = PcActorCritic::new(CpuLinAlg::new(), cfg, 42).unwrap();
    populate_replay_buffer(&mut agent, 32);

    let w_before = agent.actor.layers[0].weights.data.clone();
    agent.replay_learn(32).expect("replay_learn must succeed");
    assert!(
        l2_delta(&agent.actor.layers[0].weights.data, &w_before) > 1e-6,
        "actor weights must change under replay_learn + EWC"
    );
    assert!(
        !fisher_any_non_finite(&agent),
        "Fisher entries must remain finite after replay_learn with EWC enabled"
    );
}

#[test]
fn test_replay_learn_coexists_with_distillation_polyak() {
    let mut cfg_a = replay_config(100, 0);
    cfg_a.distillation_lambda_polyak = 0.05;
    let mut agent_a: PcActorCritic = PcActorCritic::new(CpuLinAlg::new(), cfg_a, 42).unwrap();
    populate_replay_buffer(&mut agent_a, 32);

    let cfg_b = replay_config(100, 0);
    let mut agent_b: PcActorCritic = PcActorCritic::new(CpuLinAlg::new(), cfg_b, 42).unwrap();
    populate_replay_buffer(&mut agent_b, 32);

    assert_eq!(
        agent_a.actor.layers[0].weights.data, agent_b.actor.layers[0].weights.data,
        "identical seeds must yield identical initial weights"
    );

    let a_before = agent_a.actor.layers[0].weights.data.clone();
    agent_a.replay_learn(32).unwrap();
    agent_b.replay_learn(32).unwrap();

    assert!(
        l2_delta(&agent_a.actor.layers[0].weights.data, &a_before) > 1e-6,
        "agent_a weights must change under replay_learn"
    );
    assert_ne!(
        agent_a.actor.layers[0].weights.data, agent_b.actor.layers[0].weights.data,
        "Polyak regularizer must alter the gradient vs non-Polyak baseline"
    );
}

#[test]
fn test_replay_learn_does_not_corrupt_gae_trace() {
    let mut cfg = replay_config(100, 0);
    cfg.gae_lambda = Some(0.95);
    let mut agent: PcActorCritic = PcActorCritic::new(CpuLinAlg::new(), cfg, 42).unwrap();
    populate_replay_buffer(&mut agent, 32);

    let state = vec![1.0, -1.0, 0.5, -0.5, 1.0, -1.0, 0.5, -0.5, 0.0];
    let next_state = vec![0.5, 0.5, -0.5, 0.0, 1.0, -1.0, 0.5, -0.5, 0.0];
    let valid: Vec<usize> = (0..9).collect();
    agent.step_masked(&state, &valid, 0.0, false).unwrap();
    agent.step_masked(&next_state, &valid, 1.0, false).unwrap();
    agent.step_masked(&state, &valid, 0.5, false).unwrap();

    assert!(
        agent.trace().iter().any(|x| x.abs() > 0.0),
        "actor_trace must be non-zero after on-policy steps"
    );
    let trace_snapshot = agent.trace().clone();

    agent.replay_learn(16).expect("replay_learn must succeed");

    assert_eq!(
        agent.trace(), trace_snapshot,
        "replay_learn must not mutate the on-policy GAE trace"
    );
}

#[test]
fn test_step_masked_auto_records_transition_when_buffer_configured() {
    let mut cfg = replay_config(100, 0);
    cfg.replay_positive_only = true;
    let mut agent: PcActorCritic = PcActorCritic::new(CpuLinAlg::new(), cfg, 42).unwrap();

    let s0 = vec![1.0, -1.0, 0.5, -0.5, 1.0, -1.0, 0.5, -0.5, 0.0];
    let s1 = vec![0.5, 0.5, -0.5, 0.0, 1.0, -1.0, 0.5, -0.5, 0.0];
    let valid: Vec<usize> = (0..9).collect();

    agent.step_masked(&s0, &valid, 0.0, false).unwrap();
    agent.step_masked(&s1, &valid, 1.0, false).unwrap();

    assert_eq!(
        agent
            .replay_buffer
            .as_ref()
            .unwrap()
            .training_memories
            .len(),
        1,
        "step_masked must auto-record the positive-reward transition"
    );
}

#[test]
fn test_replay_learn_clamps_unbounded_td_error() {
    let cfg = replay_config(100, 0);
    let mut agent: PcActorCritic = PcActorCritic::new(CpuLinAlg::new(), cfg, 42).unwrap();

    {
        let buf = agent.replay_buffer.as_mut().unwrap();
        for i in 0..8 {
            buf.push(make_replay_transition((i as f64) * 0.1, 100.0));
        }
    }

    agent.replay_learn(8).expect("replay_learn must succeed");

    assert!(
        all_weights_finite(&agent),
        "weights must remain finite despite unbounded raw TD error"
    );
    assert!(
        agent.replay_clamp_count() >= 1,
        "clamp must have been binding at least once with reward=100.0"
    );

    assert!(
        (MAX_REPLAY_TD_ERROR - 5.0).abs() < 1e-12,
        "MAX_REPLAY_TD_ERROR must be 5.0"
    );
}

#[test]
fn test_replay_learn_nonfinite_td_error_increments_clamp_counter() {
    let cfg = replay_config(100, 0);
    let mut agent: PcActorCritic = PcActorCritic::new(CpuLinAlg::new(), cfg, 42).unwrap();

    {
        let buf = agent.replay_buffer.as_mut().unwrap();
        for i in 0..4 {
            buf.push(make_replay_transition((i as f64) * 0.1, f64::INFINITY));
        }
    }

    let before = agent.replay_clamp_count();
    agent.replay_learn(4).expect("replay_learn must succeed");
    let after = agent.replay_clamp_count();

    assert!(
        all_weights_finite(&agent),
        "weights must remain finite — NaN/Inf guard should short-circuit the update"
    );
    assert!(
        after > before,
        "replay_clamp_count must increment on non-finite raw TD error (before={before}, after={after})"
    );
}

#[test]
fn test_replay_learn_uses_current_actor_latents() {
    let cfg = replay_config(100, 0);
    let mut agent: PcActorCritic = PcActorCritic::new(CpuLinAlg::new(), cfg, 42).unwrap();

    let state = vec![1.0, -1.0, 0.5, -0.5, 1.0, -1.0, 0.5, -0.5, 0.0];

    let latent_at_record_time = agent.actor.infer(&state).latent_concat.clone();

    {
        let buf = agent.replay_buffer.as_mut().unwrap();
        buf.push(make_replay_transition(1.0, 1.0));
    }

    let valid: Vec<usize> = (0..9).collect();
    let mut s_cur = state.clone();
    for i in 0..100 {
        let next = vec![(i as f64) / 100.0; 9];
        agent.step_masked(&s_cur, &valid, 1.0, false).unwrap();
        s_cur = next;
    }

    let latent_after_drift = agent.actor.infer(&state).latent_concat.clone();

    let backend = CpuLinAlg::new().clone();
    let l_before = backend.vec_to_vec(&latent_at_record_time);
    let l_after = backend.vec_to_vec(&latent_after_drift);
    assert!(
        l_before
            .iter()
            .zip(l_after.iter())
            .any(|(a, b)| (a - b).abs() > 1e-6),
        "drift must produce different actor latents for the same state"
    );

    agent.replay_learn(1).expect("replay_learn must succeed");
    assert!(all_weights_finite(&agent));
}

#[test]
fn test_apply_config_allocates_replay_buffer_on_zero_to_positive_transition() {
    let mut agent: PcActorCritic = make_agent();
    assert!(
        agent.replay_buffer.is_none(),
        "default config has no replay buffer"
    );

    let valid: Vec<usize> = (0..9).collect();
    let state = vec![1.0, -1.0, 0.5, -0.5, 1.0, -1.0, 0.5, -0.5, 0.0];
    agent.step_masked(&state, &valid, 0.0, false).unwrap();
    agent.step_masked(&state, &valid, 1.0, false).unwrap();

    let w_before = agent.actor.layers[0].weights.data.clone();

    let mut new_cfg = agent.config.clone();
    new_cfg.replay_training_capacity = 100;
    agent
        .apply_config(new_cfg)
        .expect("apply_config with new buffer capacity must succeed");

    assert!(
        agent.replay_buffer.is_some(),
        "apply_config must allocate a new buffer"
    );
    assert!(
        agent
            .replay_buffer
            .as_ref()
            .unwrap()
            .training_memories
            .is_empty(),
        "new buffer must start empty — no retroactive population"
    );
    assert_eq!(
        agent.actor.layers[0].weights.data, w_before,
        "apply_config must not mutate actor weights"
    );
    let s1 = vec![0.5; 9];
    let s2 = vec![0.75; 9];
    agent.step_masked(&s1, &valid, 0.0, false).unwrap();
    agent.step_masked(&s2, &valid, 1.0, false).unwrap();
    assert_eq!(
        agent
            .replay_buffer
            .as_ref()
            .unwrap()
            .training_memories
            .len(),
        1,
        "post-apply_config step_masked must feed the new buffer"
    );
}

#[test]
fn test_apply_config_deallocates_replay_buffer_on_positive_to_zero_transition() {
    let cfg = replay_config(100, 0);
    let mut agent: PcActorCritic = PcActorCritic::new(CpuLinAlg::new(), cfg, 42).unwrap();
    populate_replay_buffer(&mut agent, 30);
    assert!(agent.replay_buffer.is_some());

    let w_before = agent.actor.layers[0].weights.data.clone();

    let mut new_cfg = agent.config.clone();
    new_cfg.replay_training_capacity = 0;
    agent
        .apply_config(new_cfg)
        .expect("apply_config zeroing buffer must succeed");

    assert!(
        agent.replay_buffer.is_none(),
        "apply_config must deallocate buffer when capacity drops to 0"
    );

    let valid: Vec<usize> = (0..9).collect();
    let s = vec![0.25; 9];
    agent
        .step_masked(&s, &valid, 0.0, false)
        .expect("step_masked must still work after buffer deallocation");

    assert_eq!(
        agent.actor.layers[0].weights.data, w_before,
        "apply_config must not mutate actor weights"
    );
}

#[test]
fn test_combined_regularizers_no_gradient_saturation() {
    let mut cfg_full = replay_config(100, 0);
    cfg_full.ewc_lambda = 0.1;
    cfg_full.distillation_lambda_polyak = 0.05;
    cfg_full.distillation_lambda_frozen = 0.05;
    cfg_full.actor_hysteresis = true;
    cfg_full.critic_hysteresis = true;
    cfg_full.actor_fast_window = 5;
    cfg_full.actor_slow_window = 20;
    cfg_full.critic_fast_window = 5;
    cfg_full.critic_slow_window = 20;
    let mut agent_full: PcActorCritic =
        PcActorCritic::new(CpuLinAlg::new(), cfg_full, 42).unwrap();

    let cfg_td_only = default_config();
    let mut agent_td_only: PcActorCritic =
        PcActorCritic::new(CpuLinAlg::new(), cfg_td_only, 42).unwrap();
    assert_eq!(
        agent_full.actor.layers[0].weights.data, agent_td_only.actor.layers[0].weights.data,
        "identical seeds must yield identical initial actor weights"
    );

    let valid: Vec<usize> = (0..9).collect();
    let mut rng_like_seed: u64 = 12345;

    let mut hysteresis_transition_observed = false;
    let mut nonzero_steps = 0u32;
    let mut cosine_ok_count = 0u32;
    let mut cosine_samples = 0u32;

    let mut prev_full_state = agent_full
        .actor_hysteresis
        .as_ref()
        .map(|h| h.state.clone());

    const N_STEPS: usize = 200;
    for step_idx in 0..N_STEPS {
        rng_like_seed = rng_like_seed
            .wrapping_mul(6364136223846793005)
            .wrapping_add(1);
        let seed_val = (rng_like_seed >> 32) as f64 / (u32::MAX as f64);
        let state: Vec<f64> = (0..9)
            .map(|j| ((seed_val + 0.1 * j as f64) * 2.0 - 1.0).clamp(-1.0, 1.0))
            .collect();
        let reward = if step_idx % 3 == 0 { 1.0 } else { -0.1 };

        let w_full_before = flatten_all_weights(&agent_full);
        let w_td_before = flatten_all_weights(&agent_td_only);

        assert!(agent_full.lib.can_step());
        agent_full
            .lib
            .step_masked(&Settling, &scalars(&state), &valid, sc(reward), false)
            .unwrap();
        assert!(agent_td_only.lib.can_step());
        agent_td_only
            .lib
            .step_masked(&Settling, &scalars(&state), &valid, sc(reward), false)
            .unwrap();

        if step_idx % 5 == 4 && agent_full.replay_buffer.is_some() {
            let _ = agent_full.lib.replay_learn(&Settling, 16);
        }

        let w_full_after = flatten_all_weights(&agent_full);
        let w_td_after = flatten_all_weights(&agent_td_only);

        assert!(
            all_weights_finite(&agent_full),
            "full-regularizer weights became non-finite at step {step_idx}"
        );
        assert!(
            all_weights_finite(&agent_td_only),
            "TD-only baseline weights became non-finite at step {step_idx}"
        );

        let delta_full: Vec<f64> = w_full_after
            .iter()
            .zip(w_full_before.iter())
            .map(|(a, b)| a - b)
            .collect();
        let delta_td: Vec<f64> = w_td_after
            .iter()
            .zip(w_td_before.iter())
            .map(|(a, b)| a - b)
            .collect();
        let delta_full_norm: f64 = delta_full.iter().map(|x| x * x).sum::<f64>().sqrt();
        if delta_full_norm > 1e-9 {
            nonzero_steps += 1;
        }

        assert!(
            delta_full_norm < 10.0,
            "delta norm {} exceeded envelope at step {}",
            delta_full_norm,
            step_idx
        );

        let curr_state = agent_full
            .actor_hysteresis
            .as_ref()
            .map(|h| h.state.clone());
        if let (Some(ref prev), Some(ref curr)) = (&prev_full_state, &curr_state) {
            if prev != curr {
                hysteresis_transition_observed = true;
            }
        }
        prev_full_state = curr_state;

        if step_idx % 10 == 0 && delta_full_norm > 1e-9 {
            let td_norm: f64 = delta_td.iter().map(|x| x * x).sum::<f64>().sqrt();
            if td_norm > 1e-9 {
                let cos = cosine_similarity(&delta_full, &delta_td);
                cosine_samples += 1;
                if cos >= 0.5 {
                    cosine_ok_count += 1;
                }
            }
        }
    }

    assert!(
        nonzero_steps as f64 >= 0.9 * N_STEPS as f64,
        "only {nonzero_steps}/{N_STEPS} online steps had non-zero weight delta"
    );

    let final_plastic = agent_full
        .actor_hysteresis
        .as_ref()
        .map(|h| h.state == PlasticityState::Plastic)
        .unwrap_or(true);
    assert!(
        hysteresis_transition_observed || final_plastic,
        "actor stayed FROZEN for the full {N_STEPS}-step window — regularizer cocktail is freezing plasticity"
    );

    if cosine_samples > 0 {
        let ok_frac = cosine_ok_count as f64 / cosine_samples as f64;
        assert!(
            ok_frac >= 0.8,
            "TD-cosine fidelity {:.2} < 0.8 across {} samples",
            ok_frac,
            cosine_samples
        );
    }
}

#[test]
fn test_clear_recent_memories_preserves_training_memories() {
    let cfg = replay_config(100, 50);
    let mut agent: PcActorCritic = PcActorCritic::new(CpuLinAlg::new(), cfg, 42).unwrap();

    {
        let buf = agent.replay_buffer.as_mut().unwrap();
        for i in 0..30 {
            buf.push(make_replay_transition(-(i as f64) * 0.01, 1.0));
        }
    }
    agent.seal_replay_training_memories().unwrap();
    {
        let buf = agent.replay_buffer.as_mut().unwrap();
        for i in 0..25 {
            buf.push(make_replay_transition((i as f64) * 0.02, 1.0));
        }
    }

    let training_snapshot = agent
        .replay_buffer
        .as_ref()
        .unwrap()
        .training_memories
        .clone();
    assert_eq!(training_snapshot.len(), 30);
    assert_eq!(
        agent.replay_buffer.as_ref().unwrap().recent_memories.len(),
        25
    );

    agent
        .clear_recent_memories()
        .expect("clear_recent_memories must succeed when buffer is configured");
    assert!(
        agent
            .replay_buffer
            .as_ref()
            .unwrap()
            .recent_memories
            .is_empty(),
        "recent memories must be empty after clear"
    );
    assert_eq!(
        agent.replay_buffer.as_ref().unwrap().training_memories,
        training_snapshot,
        "training memories must be preserved across clear"
    );
    assert!(
        !agent.replay_buffer.as_ref().unwrap().training_phase,
        "clear_recent_memories must not flip training_phase back to true"
    );
    agent
        .clear_recent_memories()
        .expect("second clear on empty recent must be Ok(())");

    let mut agent_nobuf: PcActorCritic = make_agent();
    match agent_nobuf.clear_recent_memories() {
        Err(PcError::ConfigValidation(_)) => {}
        other => panic!("expected ConfigValidation Err on buffer-less agent, got {other:?}"),
    }
}

#[test]
fn test_seal_replay_training_memories_errs_when_no_buffer() {
    let mut agent_nobuf: PcActorCritic = make_agent();
    match agent_nobuf.seal_replay_training_memories() {
        Err(PcError::ConfigValidation(_)) => {}
        other => panic!("expected ConfigValidation Err on buffer-less agent, got {other:?}"),
    }

    let cfg = replay_config(100, 50);
    let mut agent: PcActorCritic = PcActorCritic::new(CpuLinAlg::new(), cfg, 42).unwrap();
    assert!(agent.replay_buffer.as_ref().unwrap().training_phase);
    agent
        .seal_replay_training_memories()
        .expect("seal on configured buffer must succeed");
    assert!(!agent.replay_buffer.as_ref().unwrap().training_phase);
}

#[test]
fn test_replay_learn_critic_receives_clamped_td_error() {
    let cfg = replay_config(100, 0);
    let mut agent: PcActorCritic = PcActorCritic::new(CpuLinAlg::new(), cfg, 42).unwrap();

    {
        let buf = agent.replay_buffer.as_mut().unwrap();
        buf.push(make_replay_transition(0.1, 100.0));
    }

    let t0 = &agent.replay_buffer.as_ref().unwrap().training_memories[0].clone();
    let infer_s = agent.actor.infer(&doubles(&t0.state));
    let latent_s = CpuLinAlg::new().vec_to_vec(&infer_s.latent_concat);
    let mut critic_in_s = doubles(&t0.state);
    critic_in_s.extend_from_slice(&latent_s);
    let v_s = agent.critic.forward(&critic_in_s);

    let infer_sp = agent.actor.infer(&doubles(&t0.next_state));
    let latent_sp = CpuLinAlg::new().vec_to_vec(&infer_sp.latent_concat);
    let mut critic_in_sp = doubles(&t0.next_state);
    critic_in_sp.extend_from_slice(&latent_sp);
    let v_sp = agent.critic.forward(&critic_in_sp);

    let gamma = agent.config.gamma;
    let raw_td = fl(t0.reward) + gamma * v_sp - v_s;
    let clamped_td = raw_td.clamp(-MAX_REPLAY_TD_ERROR, MAX_REPLAY_TD_ERROR);

    assert!(
        raw_td.abs() > MAX_REPLAY_TD_ERROR,
        "raw_td |{raw_td}| must exceed clamp boundary {MAX_REPLAY_TD_ERROR}"
    );
    assert!(
        (raw_td - clamped_td).abs() > 1e-6,
        "clamped_td must strictly differ from raw_td in this scenario"
    );

    agent.replay_learn(1).expect("replay_learn must succeed");

    assert!(
        agent.replay_clamp_count() >= 1,
        "clamp must have been binding in this high-reward scenario"
    );
    assert!(all_weights_finite(&agent));

    let infer_s_after = agent.actor.infer(&doubles(&t0.state));
    let latent_s_after = CpuLinAlg::new().vec_to_vec(&infer_s_after.latent_concat);
    let mut critic_in_s_after = doubles(&t0.state);
    critic_in_s_after.extend_from_slice(&latent_s_after);
    let v_s_after = agent.critic.forward(&critic_in_s_after);
    let actual_delta = v_s_after - v_s;

    let lr = fl(agent.critic.config.lr);
    let expected_clamped_envelope = lr * clamped_td.abs();
    let expected_unclamped_envelope = lr * raw_td.abs();

    assert!(
        actual_delta.abs() < expected_unclamped_envelope,
        "V(s) delta {actual_delta} exceeds unclamped envelope {expected_unclamped_envelope} — clamp may be bypassed"
    );
    let gap = expected_unclamped_envelope - expected_clamped_envelope;
    assert!(
        (actual_delta.abs() - expected_clamped_envelope).abs() < 0.5 * gap,
        "V(s) delta {actual_delta} is suspiciously far from clamped envelope {expected_clamped_envelope} (unclamped would be {expected_unclamped_envelope})"
    );

    let _ = clamped_td;
}

fn make_replay_transition(marker: f64, reward: f64) -> ReplayTransition {
    let mut state = vec![0.0; 9];
    state[0] = marker;
    let mut next_state = vec![0.0; 9];
    next_state[1] = marker;
    ReplayTransition {
        state: scalars(&state),
        action: Action::Discrete(0),
        reward: sc(reward),
        next_state: scalars(&next_state),
        done: false,
        valid_actions: Some((0..9).collect()),
    }
}

/// The share of learning that consolidation takes away at a smoothed prediction error.
fn adaptive_decay(k: f64, threshold: f64, error: f64) -> f64 {
    let mut cfg = default_config();
    cfg.adaptive_consolidation = true;
    cfg.consolidation_sigmoid_k = k;
    cfg.consolidation_error_threshold = threshold;
    let mut agent = PcActorCritic::new(CpuLinAlg::new(), cfg, 42).unwrap();
    agent.layer_error_ema = vec![sc(error)];
    1.0 - agent.effective_actor_decay()[0]
}

#[test]
fn test_adaptive_sigmoid_output_range() {
    let k = 10.0;
    let threshold = 0.05;
    for &error in &[0.0, 0.01, 0.05, 0.1, 0.5, 1.0, 10.0] {
        let sig = adaptive_decay(k, threshold, error);
        assert!((0.0..=1.0).contains(&sig), "sigmoid at {error} = {sig}");
    }
}

#[test]
fn test_adaptive_sigmoid_low_error_protects() {
    let adaptive_decay = adaptive_decay(10.0, 0.05, 0.001);
    assert!(adaptive_decay > 0.5, "low error should give high decay (protection)");
    assert!((1.0 - adaptive_decay) < 0.5, "effective learning should be < 50%");
}

#[test]
fn test_adaptive_sigmoid_high_error_releases() {
    let adaptive_decay = adaptive_decay(10.0, 0.05, 0.5);
    assert!(adaptive_decay < 0.1, "high error should give low decay (release)");
    assert!((1.0 - adaptive_decay) > 0.9, "effective learning should be > 90%");
}

#[test]
fn test_m3b_cold_start_effective_lr() {
    let effective = 1.0 - adaptive_decay(10.0, 0.05, 0.0);
    assert!(
        effective > 0.35 && effective < 0.40,
        "cold start effective factor should be ~0.378, got {effective}"
    );
}

#[test]
fn test_fisher_gradient_extraction_approach1() {
    let backend = CpuLinAlg::new();
    let output = backend.vec_from_slice(&[0.5, -0.3, 0.8]);
    let delta = backend.vec_from_slice(&[1.0, 2.0, -1.5]);
    let grad_vec = gradients::extract_gradient(&backend, &delta, &output, Activation::Tanh);
    assert_eq!(grad_vec.len(), 3);
    for i in 0..3 {
        let out_i = [0.5, -0.3, 0.8][i];
        let delta_i = [1.0, 2.0, -1.5][i];
        let expected: f64 = delta_i * (1.0 - out_i * out_i);
        let expected_clipped = expected.clamp(-5.0, 5.0);
        assert!(
            (grad_vec[i] - expected_clipped).abs() < 1e-10,
            "grad[{}] = {}, expected {}",
            i,
            grad_vec[i],
            expected_clipped
        );
    }
}

/// Steps of a plastic phase that make it reliable.
fn fisher_phase(beta: f64) -> u64 {
    let mut cfg = default_config();
    cfg.ewc_lambda = 0.1;
    cfg.fisher_ema_beta = beta;
    agent::PcActorCritic::<CpuLinAlg>::min_fisher_phase(&cfg.lib())
}

#[test]
fn test_min_fisher_phase_derived_correctly() {
    assert_eq!(fisher_phase(0.99), 100);
    assert_eq!(fisher_phase(0.95), 20);
}

#[test]
fn test_fisher_ema_beta_near_zero_min_phase_one() {
    let min_phase = fisher_phase(0.01);
    assert!(min_phase <= 2, "beta=0.01 → min_phase should be ~1, got {}", min_phase);
}

fn reversed_delta(y_conv: &[f64], valid: &[usize], action: usize, temperature: f64) -> Vec<f64> {
    doubles(&policy::reversed_delta(
        &CpuLinAlg::new(),
        &scalars(y_conv),
        valid,
        action,
        sc(temperature),
    ))
}

#[test]
fn test_logits_reversal_delta_formula() {
    let valid_actions = vec![0, 1, 2];
    let action = 1;
    let mut pi_rev = reversed_delta(&[1.0, 2.0, 0.5], &valid_actions, action, 1.0);
    pi_rev[action] += 1.0;

    let sum: f64 = valid_actions.iter().map(|&i| pi_rev[i]).sum();
    assert!((sum - 1.0).abs() < 1e-10);
    assert!(pi_rev[1] < pi_rev[0] && pi_rev[1] < pi_rev[2]);
}

#[test]
fn test_logits_reversal_no_advantage_scaling() {
    let delta = reversed_delta(&[1.0, 2.0, 0.5], &[0, 1, 2], 1, 1.0);
    for &d in &delta {
        assert!(d.abs() <= 1.0 + 1e-10);
    }
}

#[test]
fn test_logits_reversal_uses_actor_temperature() {
    let y_conv = [1.0, 2.0, 0.5];
    let mut pi_vec = reversed_delta(&y_conv, &[0, 1, 2], 0, 2.0);
    pi_vec[0] += 1.0;
    let mut pi_t1_vec = reversed_delta(&y_conv, &[0, 1, 2], 0, 1.0);
    pi_t1_vec[0] += 1.0;

    let entropy_t2: f64 = pi_vec.iter().map(|&p| -p * p.ln()).sum();
    let entropy_t1: f64 = pi_t1_vec.iter().map(|&p| -p * p.ln()).sum();
    assert!(
        entropy_t2 > entropy_t1,
        "Higher temperature should produce more uniform reversed distribution"
    );
}

#[test]
fn test_logits_reversal_uses_softmax_masked() {
    let valid_actions = vec![0, 2];
    let mut pi_vec = reversed_delta(&[1.0, 2.0, 0.5, 3.0], &valid_actions, 0, 1.0);
    pi_vec[0] += 1.0;
    assert!(pi_vec[1].abs() < 1e-10, "Invalid action 1 should have zero prob");
    assert!(pi_vec[3].abs() < 1e-10, "Invalid action 3 should have zero prob");
    let valid_sum: f64 = valid_actions.iter().map(|&i| pi_vec[i]).sum();
    assert!((valid_sum - 1.0).abs() < 1e-10);
}

#[test]
fn same_seed_same_networks() {
    let a = PcActorCritic::new(CpuLinAlg::new(), default_config(), 42).unwrap();
    let b = PcActorCritic::new(CpuLinAlg::new(), default_config(), 42).unwrap();
    let c = PcActorCritic::new(CpuLinAlg::new(), default_config(), 43).unwrap();
    assert_eq!(collect_all_weights(&a), collect_all_weights(&b));
    assert_ne!(collect_all_weights(&a), collect_all_weights(&c));
}

#[test]
fn histories_drop_what_is_not_finite_and_stay_bounded() {
    let mut cfg = default_config();
    cfg.surprise_buffer_size = 3;
    let mut agent = PcActorCritic::new(CpuLinAlg::new(), cfg, 42).unwrap();
    for x in [1.0, f64::NAN, 2.0, f64::INFINITY, 3.0, 4.0] {
        agent.push_surprise(x);
        agent.lib.push_td_error(sc(x));
    }
    assert_eq!(agent.surprises(), vec![2.0, 3.0, 4.0]);
    assert_eq!(agent.td_errors(), vec![2.0, 3.0, 4.0]);
}

#[test]
fn adaptive_thresholds_follow_the_history() {
    let mut cfg = default_config();
    cfg.adaptive_surprise = true;
    let mut agent = PcActorCritic::new(CpuLinAlg::new(), cfg, 42).unwrap();
    for _ in 0..9 {
        agent.push_surprise(1.0);
    }
    assert_eq!(agent.surprise_scale(0.2), 2.0);
    agent.push_surprise(1.0);
    assert_eq!(agent.surprise_scale(1.0), 0.1);
    assert_eq!(agent.surprise_scale(1.1), 2.0);
    for x in [0.0, 2.0] {
        for _ in 0..5 {
            agent.push_surprise(x);
        }
    }
    let all: Vec<f64> = agent.surprises();
    let mean = all.iter().sum::<f64>() / all.len() as f64;
    let std = (all.iter().map(|x| (x - mean) * (x - mean)).sum::<f64>() / all.len() as f64).sqrt();
    let (low, high) = ((mean - 0.5 * std).max(0.0), mean + 1.5 * std);
    let t = (1.0 - low) / (high - low);
    assert!((agent.surprise_scale(1.0) - (0.1 + t * 1.9)).abs() < 1e-12);
}

#[test]
fn replay_scales_override_plasticity_once_set() {
    let mut cfg = default_config();
    cfg.actor_hysteresis = true;
    cfg.critic_hysteresis = true;
    let mut agent = PcActorCritic::new(CpuLinAlg::new(), cfg.clone(), 42).unwrap();
    agent.actor_hysteresis.as_mut().unwrap().state = PlasticityState::Frozen;
    agent.critic_hysteresis.as_mut().unwrap().state = PlasticityState::Frozen;
    let actor = |a: &PcActorCritic, m| fl(a.lib.effective_actor_scale_for_mode(sc(9.0), m));
    let critic = |a: &PcActorCritic, m| fl(a.lib.effective_critic_scale_for_mode(sc(9.0), m));
    assert_eq!(actor(&agent, LearnMode::Online), 0.1);
    assert_eq!(actor(&agent, LearnMode::Replay), 0.1);
    assert_eq!(critic(&agent, LearnMode::Online), 0.1);
    assert_eq!(critic(&agent, LearnMode::Replay), 0.1);
    agent.lib.config.scale_floor_replay = sc(0.3);
    agent.lib.config.critic_floor_replay = sc(0.4);
    assert_eq!(actor(&agent, LearnMode::Online), 0.1);
    assert_eq!(actor(&agent, LearnMode::Replay), 0.3);
    assert_eq!(critic(&agent, LearnMode::Replay), 0.4);
    agent.actor_hysteresis.as_mut().unwrap().state = PlasticityState::Plastic;
    agent.critic_hysteresis.as_mut().unwrap().state = PlasticityState::Plastic;
    assert_eq!(actor(&agent, LearnMode::Online), 2.0);
    assert_eq!(critic(&agent, LearnMode::Online), 2.0);
}

/// A step of the given reward at a fixed observation.
fn observed(agent: &PcActorCritic, action: usize) -> (Vec<Scalar>, InferResult, usize, Vec<usize>) {
    let state: Vec<f64> = (0..9).map(|i| 0.1 * i as f64).collect();
    let infer = agent.infer(&state);
    (scalars(&state), infer, action, (0..9).collect())
}

#[test]
fn critic_target_is_reward_plus_discounted_value() {
    let mut agent = make_agent();
    let (state, infer, action, valid) = observed(&agent, 1);
    let step = LearnStep::online(
        &state, &infer, action, &valid, sc(1.0), &state, &infer, false, sc(0.5),
    );
    agent.steps_since_last_rollback_hard = 7;
    let u = agent.lib.plan_critic_update(&step, sc(2.0), sc(4.0)).unwrap();
    assert_eq!((fl(u.target), fl(u.td_error)), (3.0, 1.0));
    assert_eq!(fl(u.scale), 2.0);
    assert_eq!(agent.steps_since_last_rollback_hard, 8);

    let mut last = LearnStep::online(
        &state, &infer, action, &valid, sc(1.0), &state, &infer, true, sc(0.5),
    );
    let u = agent.lib.plan_critic_update(&last, sc(2.0), sc(4.0)).unwrap();
    assert_eq!((fl(u.target), fl(u.td_error)), (1.0, -1.0));
    last.pre_v_s = Some(sc(0.5));
    let u = agent.lib.plan_critic_update(&last, sc(2.0), sc(4.0)).unwrap();
    assert_eq!((fl(u.target), fl(u.td_error)), (1.0, 0.5));
    last.pre_td_error = Some(sc(-3.0));
    let u = agent.lib.plan_critic_update(&last, sc(2.0), sc(4.0)).unwrap();
    assert_eq!((fl(u.target), fl(u.td_error)), (-2.5, -3.0));
    last.pre_td_error = Some(sc(f64::NAN));
    assert!(agent.lib.plan_critic_update(&last, sc(2.0), sc(4.0)).is_none());
    assert_eq!(agent.steps_since_last_rollback_hard, 12);
}

#[test]
fn policy_gradient_has_exact_values() {
    let mut cfg = default_config();
    cfg.entropy_coeff = 0.0;
    let mut agent = PcActorCritic::new(CpuLinAlg::new(), cfg, 42).unwrap();
    let (state, mut infer, action, _) = observed(&agent, 2);
    infer.y_conv = vec![0.0; 9];
    let valid = vec![2, 5];
    let step = LearnStep::online(
        &state, &infer, action, &valid, sc(0.0), &state, &infer, false, sc(0.5),
    );
    let g = doubles(&agent.lib.step_gradient(&step, sc(2.0)));
    assert_eq!(g[2], -1.0);
    assert_eq!(g[5], 1.0);
    assert_eq!(g.iter().filter(|x| **x != 0.0).count(), 2);
}

#[test]
fn trace_gradient_follows_the_trace_online_only() {
    let mut cfg = default_config();
    cfg.entropy_coeff = 0.0;
    cfg.gamma = 0.5;
    cfg.gae_lambda = Some(0.5);
    let mut agent = PcActorCritic::new(CpuLinAlg::new(), cfg, 42).unwrap();
    agent.actor_trace = scalars(&[1.0; 9]);
    let (state, mut infer, action, _) = observed(&agent, 2);
    infer.y_conv = vec![0.0; 9];
    let valid = vec![2, 5];
    let mut step = LearnStep::online(
        &state, &infer, action, &valid, sc(0.0), &state, &infer, false, sc(0.5),
    );
    step.mode = LearnMode::Replay;
    let g = doubles(&agent.lib.step_gradient(&step, sc(2.0)));
    assert_eq!((g[2], g[5], g[0]), (-1.0, 1.0, 0.0));
    assert_eq!(agent.trace(), vec![1.0; 9]);
    step.mode = LearnMode::Online;
    let g = doubles(&agent.lib.step_gradient(&step, sc(2.0)));
    assert_eq!((g[2], g[5], g[0]), (-0.5, 1.5, 0.5));
    assert_eq!(agent.trace()[2], -0.25);
}

#[test]
fn waiting_steps_are_learned_once_and_in_order() {
    let mut cfg = default_config();
    cfg.td_steps = 2;
    cfg.gamma = 0.5;
    let mut agent = PcActorCritic::new(CpuLinAlg::new(), cfg, 42).unwrap();
    let give = |agent: &mut PcActorCritic, action: usize, reward: f64, terminal: bool| {
        let (_, infer, _, valid) = observed(agent, action);
        let previous =
            PreviousStep { state: vec![0.0; 9], action, infer, valid_actions: valid };
        agent.lib.plan_learning(previous, sc(reward), terminal)
    };
    assert!(give(&mut agent, 0, 1.0, false).jobs.is_empty());
    assert!(give(&mut agent, 9, f64::NAN, false).jobs.is_empty());
    assert_eq!(agent.td_buffer.len(), 1);

    let plan = give(&mut agent, 1, 2.0, false);
    assert_eq!(plan.jobs.len(), 1);
    assert!(!plan.values_first);
    let job = &plan.jobs[0];
    assert_eq!(job.transition.action, 0);
    assert_eq!((fl(job.reward), fl(job.gamma), job.done), (2.0, 0.25, false));
    assert_eq!(agent.td_buffer.len(), 1);

    let plan = give(&mut agent, 2, 4.0, true);
    assert!(plan.values_first);
    let got: Vec<(usize, f64, f64, bool)> = plan
        .jobs
        .iter()
        .map(|j| (j.transition.action, fl(j.reward), fl(j.gamma), j.done))
        .collect();
    assert_eq!(got, vec![(1, 4.0, 0.25, true), (2, 4.0, 0.5, true)]);
    assert!(agent.td_buffer.is_empty());
}

#[test]
fn one_step_learning_hands_the_step_out_at_once() {
    let mut agent = make_agent();
    let (_, infer, _, valid) = observed(&agent, 3);
    let previous = PreviousStep { state: vec![0.0; 9], action: 3, infer, valid_actions: valid };
    let plan = agent.lib.plan_learning(previous, sc(f64::NAN), true);
    assert_eq!(plan.jobs.len(), 1);
    assert!(plan.jobs[0].done && !plan.values_first);
    assert_eq!(fl(plan.jobs[0].gamma), 0.95);
    assert!(agent.td_buffer.is_empty());
}

#[test]
fn previous_step_without_mask_had_every_action_open() {
    let mut agent = make_agent();
    assert!(agent.lib.take_previous().is_none());
    agent.step(&[0.5; 9], 0.0, false);
    let previous = agent.lib.take_previous().unwrap();
    assert_eq!(previous.valid_actions, (0..9).collect::<Vec<usize>>());
    assert!(agent.lib.take_previous().is_none());
    agent.step_masked(&[0.5; 9], &[1, 4], 0.0, false).unwrap();
    assert_eq!(agent.lib.take_previous().unwrap().valid_actions, vec![1, 4]);
}

#[test]
fn replayed_errors_are_clamped_and_counted() {
    let mut cfg = default_config();
    cfg.gamma = 0.5;
    let mut agent = PcActorCritic::new(CpuLinAlg::new(), cfg, 42).unwrap();
    let clamp = |a: &mut PcActorCritic, r: f64, done: bool, next: f64, v: f64| {
        fl(a.lib.clamp_replay_error(sc(r), done, sc(next), sc(v)))
    };
    assert_eq!(clamp(&mut agent, 1.0, false, 4.0, 2.0), 1.0);
    assert_eq!(clamp(&mut agent, 1.0, true, 4.0, 2.0), -1.0);
    assert_eq!(clamp(&mut agent, 5.0, true, 0.0, 0.0), 5.0);
    assert_eq!(agent.replay_clamp_count(), 0);
    assert_eq!(clamp(&mut agent, 100.0, true, 0.0, 0.0), 5.0);
    assert_eq!(clamp(&mut agent, -100.0, true, 0.0, 0.0), -5.0);
    assert_eq!(clamp(&mut agent, f64::INFINITY, true, 0.0, 0.0), 5.0);
    assert!(clamp(&mut agent, f64::NAN, true, 0.0, 0.0).is_nan());
    assert_eq!(agent.replay_clamp_count(), 4);
}

#[test]
fn replay_batch_without_memory_is_empty() {
    let mut agent = make_agent();
    assert!(agent.lib.sample_replay_batch(8).is_empty());
    let mut agent = PcActorCritic::new(CpuLinAlg::new(), replay_config(10, 0), 42).unwrap();
    assert!(agent.lib.sample_replay_batch(8).is_empty());
    populate_replay_buffer(&mut agent, 5);
    assert_eq!(agent.lib.sample_replay_batch(3).len(), 3);
    assert_eq!(agent.lib.sample_replay_batch(8).len(), 5);
}

#[test]
fn drawn_back_weights_have_exact_values() {
    let mut cfg = ewc_config();
    cfg.ewc_lambda = 0.5;
    cfg.actor.lr_weights = 0.1;
    let mut agent = PcActorCritic::new(CpuLinAlg::new(), cfg, 42).unwrap();
    let before: Vec<Layer> = agent
        .actor
        .layers
        .iter()
        .map(|l| Layer { weights: l.weights.clone(), bias: l.bias.clone(), activation: l.activation })
        .collect();
    let old = before[0].weights.data[0];
    let fisher = &mut agent.lib.actor_fisher[0];
    fisher.theta_snapshot_weights = Some(Mat {
        rows: before[0].weights.rows,
        cols: before[0].weights.cols,
        data: vec![0.0; before[0].weights.data.len()],
    });
    fisher.theta_snapshot_bias = Some(vec![0.0; before[0].bias.len()]);
    fisher.f_total_weights.data[0] = 2.0;
    fisher.f_total_weights.data[1] = 1e9;
    agent.lib.apply_actor_ewc_correction(&before, sc(3.0), &vec![sc(0.5)]);
    let rate = 0.1 * (3.0 * 0.5);
    let expected = old - rate * 0.5 * 2.0 * old;
    assert!((agent.actor.layers[0].weights.data[0] - expected).abs() < 1e-15);
    assert_eq!(agent.actor.layers[0].weights.data[1].abs(), 5.0);
    assert_eq!(agent.actor.layers[0].weights.data[2], before[0].weights.data[2]);
    assert_eq!(agent.actor.layers[1].weights.data, before[1].weights.data);
}

#[test]
fn polyak_target_moves_by_its_rate() {
    let agent = make_agent();
    let other = PcActorCritic::new(CpuLinAlg::new(), default_config(), 7).unwrap();
    let mut target = agent.actor.copy();
    target.polyak_update_from(&CpuLinAlg::new(), &other.actor, sc(0.25));
    let (a, b) = (agent.actor.layers[0].weights.data[0], other.actor.layers[0].weights.data[0]);
    assert!((target.layers[0].weights.data[0] - (0.75 * a + 0.25 * b)).abs() < 1e-15);
    target.copy_weights_from(&other.actor);
    assert_eq!(target.layers[0].weights.data, other.actor.layers[0].weights.data);
}

#[test]
fn importance_takes_in_the_gradient_of_each_layer() {
    let mut cfg = ewc_config();
    cfg.fisher_ema_beta = 0.5;
    let mut agent = PcActorCritic::new(CpuLinAlg::new(), cfg, 42).unwrap();
    let state: Vec<f64> = (0..9).map(|i| 0.1 * i as f64).collect();
    let infer = agent.infer(&state);
    let delta: Vec<f64> = (0..infer.y_conv.len()).map(|i| 0.1 * (i as f64 - 4.0)).collect();
    let backend = CpuLinAlg::new();
    let top = backend.vec_hadamard(&delta, &backend.apply_derivative(&infer.y_conv, Activation::Tanh));
    let back = transposed_product(&agent.actor.layers[1].weights, &top);
    let low =
        backend.vec_hadamard(&back, &backend.apply_derivative(&infer.hidden_states[0], Activation::Tanh));
    agent.lib.accumulate_actor_fisher_ema(&scalars(&delta), &infer);
    for (i, g) in top.iter().enumerate() {
        assert!((agent.actor_fisher[1].f_ema_bias[i] - 0.5 * g * g).abs() < 1e-15);
    }
    for (i, g) in low.iter().enumerate() {
        assert!((agent.actor_fisher[0].f_ema_bias[i] - 0.5 * g * g).abs() < 1e-12);
        assert_eq!(agent.actor_fisher[0].f_ema_weights.get(i, 0), agent.actor_fisher[0].f_ema_bias[i]);
    }
}

#[test]
fn skip_connections_and_prediction_errors_enter_the_gradients() {
    for local_lambda in [1.0, 0.5, 0.0] {
        for sizes in [(12, 12), (12, 10)] {
            let mut cfg = ewc_config();
            cfg.actor.residual = true;
            cfg.actor.rezero_init = 0.5;
            cfg.actor.local_lambda = local_lambda;
            cfg.actor.hidden_layers = vec![
                LayerDef { size: sizes.0, activation: Activation::Tanh },
                LayerDef { size: sizes.1, activation: Activation::Tanh },
            ];
            cfg.critic.input_size = 9 + sizes.0 + sizes.1;
            let mut agent = PcActorCritic::new(CpuLinAlg::new(), cfg, 42).unwrap();
            let state: Vec<f64> = (0..9).map(|i| 0.1 * i as f64).collect();
            let infer = agent.infer(&state);
            let delta = vec![0.3; infer.y_conv.len()];
            agent.lib.accumulate_actor_fisher_ema(&scalars(&delta), &infer);
            for layer in &agent.actor_fisher {
                assert!(layer.f_ema_bias.iter().all(|x| x.is_finite()));
                assert!(layer.f_ema_bias.iter().any(|x| *x > 0.0));
            }
            if local_lambda == 0.0 {
                let e = &infer.prediction_errors[1];
                let d = CpuLinAlg::new().apply_derivative(&infer.hidden_states[0], Activation::Tanh);
                let g = e[0] * d[0];
                let beta = agent.config.fisher_ema_beta;
                assert!((agent.actor_fisher[0].f_ema_bias[0] - (1.0 - beta) * g * g).abs() < 1e-15);
            }
        }
    }
}

#[test]
fn cooldown_runs_for_exactly_its_length() {
    let mut cfg = default_config();
    cfg.distillation_lambda_frozen = 0.1;
    let mut agent = PcActorCritic::new(CpuLinAlg::new(), cfg, 42).unwrap();
    agent.set_rollback_hard_cooldown(3);
    agent.rollback_hard().unwrap();
    let refusal = agent.rollback_hard().unwrap_err().to_string();
    assert_eq!(refusal, "rollback_hard rejected: cooldown active (0 of 3 steps)");
    agent.step(&[0.5; 9], 0.0, false);
    for _ in 0..3 {
        assert!(agent.rollback_hard().is_err());
        agent.step(&[0.5; 9], 0.1, false);
    }
    agent.rollback_hard().unwrap();
}

#[test]
fn rejected_requests_say_why() {
    let mut agent = make_agent();
    let said = |r: Result<(), PcError>| r.unwrap_err().to_string();
    assert_eq!(
        said(agent.rollback_hard()),
        "rollback_hard requires distillation_lambda_frozen > 0"
    );
    assert_eq!(
        said(agent.seal_replay_training_memories()),
        "seal_replay_training_memories requires replay_training_capacity > 0 at construction"
    );
    assert_eq!(
        said(agent.clear_recent_memories()),
        "clear_recent_memories requires replay_training_capacity > 0 at construction"
    );
    assert_eq!(said(check_mask(&[])), "valid_actions must not be empty");
    assert!(check_mask(&[0]).is_ok());
}

#[test]
fn crossover_refuses_caches_of_different_sizes_by_name() {
    let mut a = make_agent();
    let (big, critic_big) = build_caches_for_agent(&mut a, 5);
    let (small, critic_small) = build_caches_for_agent(&mut a, 3);
    let cfg = default_config();
    let go = |x: &ActivationCache, y: &ActivationCache, u: &ActivationCache, v: &ActivationCache, c: &PcActorCriticConfig| {
        agent::PcActorCritic::crossover_inputs(&CpuLinAlg::new(), x, y, u, v, &c.lib(), 1)
    };
    match go(&big, &small, &critic_big, &critic_small, &cfg) {
        Err(PcError::DimensionMismatch { expected, got, context }) => {
            assert_eq!((expected, got), (5, 3));
            assert_eq!(context, "actor activation cache batch sizes must match for crossover");
        }
        _ => panic!("expected a mismatch"),
    }
    match go(&big, &big, &critic_small, &critic_big, &cfg) {
        Err(PcError::DimensionMismatch { expected, got, context }) => {
            assert_eq!((expected, got), (3, 5));
            assert_eq!(context, "critic activation cache batch sizes must match for crossover");
        }
        _ => panic!("expected a mismatch"),
    }
    let mut bad = default_config();
    bad.gamma = 2.0;
    assert!(matches!(
        go(&big, &big, &critic_big, &critic_big, &bad),
        Err(PcError::ConfigValidation(_))
    ));
    let inputs = go(&big, &big, &critic_big, &critic_big, &cfg).unwrap();
    assert_eq!((inputs.actor_a[0].rows, inputs.actor_a[0].cols), (5, 18));
    assert_eq!((inputs.critic_b[0].rows, inputs.critic_b[0].cols), (5, 36));
}

#[test]
fn saved_agent_comes_back() {
    let mut cfg = ewc_config();
    cfg.actor_hysteresis = true;
    cfg.critic_hysteresis = true;
    cfg.adaptive_consolidation = true;
    cfg.distillation_lambda_polyak = 0.1;
    cfg.distillation_lambda_frozen = 0.1;
    cfg.replay_training_capacity = 10;
    cfg.replay_positive_only = false;
    let mut agent = PcActorCritic::new(CpuLinAlg::new(), cfg, 42).unwrap();
    for i in 0..12 {
        agent.step(&[0.1 * (i % 5) as f64; 9], 0.5, false);
    }
    agent.lib.handle_fisher_sleep(true);
    agent.lib.replay_clamp_count = 4;
    let file = agent.lib.snapshot(new_metadata("1.0.0", 12, None));
    assert_eq!(file.metadata.episode, 12);
    let (loaded, metadata) =
        agent::PcActorCritic::load(&Rig, file, agent.lib.rng.clone(), CpuLinAlg::new()).unwrap();
    assert_eq!((metadata.episode, metadata.version.as_str()), (12, "1.0.0"));
    let flat = |a: &PcActor| -> Vec<f64> {
        a.layers.iter().flat_map(|l| l.weights.data.iter().chain(&l.bias).copied()).collect()
    };
    assert_eq!(flat(&loaded.actor), flat(&agent.actor));
    assert_eq!(
        flat(loaded.polyak_target.as_ref().unwrap()),
        flat(agent.polyak_target.as_ref().unwrap())
    );
    assert_eq!(
        flat(loaded.frozen_champion.as_ref().unwrap()),
        flat(agent.frozen_champion.as_ref().unwrap())
    );
    assert_ne!(flat(loaded.frozen_champion.as_ref().unwrap()), flat(&agent.actor));
    assert_eq!(loaded.to_cl_state(), agent.to_cl_state());
    assert!(loaded.actor_fisher[0].theta_snapshot_weights.is_some());
    assert_eq!(loaded.replay_buffer.as_ref().unwrap().total_len(), 10);
    assert_eq!(loaded.replay_clamp_count, 4);
    assert_eq!(loaded.steps_since_last_rollback_hard, agent.steps_since_last_rollback_hard);
    assert_eq!(loaded.rollback_hard_cooldown_steps, 100);
    assert!(loaded.state_prev.is_none() && loaded.surprise_buffer.is_empty());
}

#[test]
fn file_without_optional_parts_gives_fresh_ones() {
    let mut cfg = default_config();
    cfg.distillation_lambda_polyak = 0.1;
    cfg.replay_training_capacity = 10;
    let agent = PcActorCritic::new(CpuLinAlg::new(), cfg, 42).unwrap();
    let parts = SavedParts {
        config: agent.lib.config.copy(),
        actor: agent.actor.copy(),
        critic: new_critic(&agent.lib.config.critic, &mut agent.lib.rng.clone()),
        polyak_target: None,
        frozen_champion: Some(agent.actor.copy()),
        cl_state: None,
        replay_buffer: None,
        replay_clamp_count: 0,
        steps_since_last_rollback_hard: u64::MAX,
        rollback_hard_cooldown_steps: 100,
    };
    let loaded = agent::PcActorCritic::restored(parts, agent.lib.rng.clone(), CpuLinAlg::new());
    assert_eq!(
        loaded.polyak_target.as_ref().unwrap().layers[0].weights,
        agent.actor.layers[0].weights
    );
    assert!(loaded.frozen_champion.is_none());
    assert_eq!(loaded.replay_buffer.as_ref().unwrap().total_len(), 0);
    assert!(loaded.to_cl_state().is_none());
}

#[test]
fn episode_update_uses_the_advantage() {
    let mut cfg = default_config();
    cfg.entropy_coeff = 0.0;
    cfg.adaptive_surprise = true;
    let mut agent = PcActorCritic::new(CpuLinAlg::new(), cfg, 42).unwrap();
    let steps = make_trajectory(&mut agent);
    let t = trajectory::TrajectoryStep::<CpuLinAlg> {
        input: steps[0].input.clone(),
        latent_concat: Vec::new(),
        y_conv: vec![0.0; 9],
        hidden_states: Vec::new(),
        prediction_errors: Vec::new(),
        tanh_components: Vec::new(),
        action: 2,
        valid_actions: vec![2, 7],
        reward: sc(1.0),
        surprise_score: sc(0.5),
        steps_used: 1,
    };
    let plan = agent.lib.plan_episode_update(&t, sc(3.0), sc(1.0));
    assert_eq!(fl(plan.td_error), 2.0);
    assert_eq!((fl(plan.delta[2]), fl(plan.delta[7])), (-1.0, 1.0));
    assert_eq!(fl(plan.scale), 2.0);
    agent.lib.finish_episode_update(&t);
    assert_eq!(agent.surprises(), vec![0.5]);
    assert_eq!(fl(episode_loss::<CpuLinAlg>(&scalars(&[1.0, 2.0]))), 1.5);
    assert_eq!(fl(episode_loss::<CpuLinAlg>(&[])), 0.0);
}

#[test]
fn anchors_pull_only_where_there_is_a_choice() {
    let mut cfg = default_config();
    cfg.distillation_lambda_polyak = 0.5;
    cfg.distillation_lambda_frozen = 0.5;
    cfg.actor_hysteresis = true;
    let mut agent = PcActorCritic::new(CpuLinAlg::new(), cfg, 42).unwrap();
    assert!(agent.needs_polyak_logits(&[0, 1]) && agent.needs_champion_logits(&[0, 1]));
    assert!(!agent.needs_polyak_logits(&[0]) && !agent.needs_champion_logits(&[0]));
    agent.actor_hysteresis.as_mut().unwrap().state = PlasticityState::Frozen;
    assert!(!agent.needs_polyak_logits(&[0, 1]) && !agent.needs_champion_logits(&[0, 1]));
    let plain = make_agent();
    assert!(!plain.needs_polyak_logits(&[0, 1]) && !plain.needs_champion_logits(&[0, 1]));
}

#[test]
fn champion_stays_while_the_actor_learns() {
    let mut cfg = default_config();
    cfg.distillation_lambda_frozen = 0.1;
    let mut agent = PcActorCritic::new(CpuLinAlg::new(), cfg, 42).unwrap();
    let before = agent.frozen_champion.as_ref().unwrap().layers[0].weights.clone();
    for _ in 0..5 {
        agent.step(&[0.5; 9], 1.0, false);
    }
    assert_eq!(agent.frozen_champion.as_ref().unwrap().layers[0].weights, before);
    assert_ne!(agent.actor.layers[0].weights, before);
}

#[test]
fn unchanged_settings_always_match() {
    let agent = make_agent();
    assert!(agent.validate_topology_match(&default_config()).is_ok());
    let mut other = default_config();
    other.actor.lr_weights = 0.02;
    let said = agent.validate_topology_match(&other).unwrap_err().to_string();
    assert!(said.starts_with("actor lr_weights mismatch: current 0.01 vs new 0.02"), "{said}");
}

#[test]
fn file_with_other_networks_is_refused() {
    let agent = make_agent();
    let mut file = agent.lib.snapshot(new_metadata("1.0.0", 0, None));
    file.critic_weights.layers.pop();
    let refused = agent::PcActorCritic::load(&Rig, file, agent.lib.rng.clone(), CpuLinAlg::new());
    assert!(matches!(refused, Err(PcError::DimensionMismatch { .. })));
}

#[test]
fn step_that_does_not_fit_is_refused_and_changes_nothing() {
    let mut agent = make_agent();
    let (state, infer, _, valid) = observed(&agent, 0);
    let before = collect_all_weights(&agent);
    let step = LearnStep::online(
        &state, &infer, 9, &valid, sc(1.0), &state, &infer, false, sc(0.5),
    );
    let said = agent.learn_continuous_inner(&step).unwrap_err().to_string();
    assert_eq!(said, "the step does not fit the networks");
    let outside = vec![0, 9];
    let step = LearnStep::online(
        &state, &infer, 0, &outside, sc(1.0), &state, &infer, false, sc(0.5),
    );
    assert!(agent.learn_continuous_inner(&step).is_err());
    assert_eq!(collect_all_weights(&agent), before);
    assert_eq!(agent.learn_continuous(&[0.5; 9], &infer, 9, &valid, 1.0, &[0.5; 9], &infer, false), 0.0);
}

/// Networks that come back in another shape.
struct Growing;

impl Networks<CpuLinAlg> for Growing {
    fn build_actor(
        &self,
        b: &CpuLinAlg,
        config: &networks::PcActorConfig,
        rng: &StdRng,
    ) -> Result<(PcActor, StdRng), PcError> {
        Rig.build_actor(b, config, rng)
    }

    fn build_critic(
        &self,
        _: &CpuLinAlg,
        _: &networks::MlpCriticConfig,
        _: &StdRng,
    ) -> Result<(MlpCritic, StdRng), PcError> {
        Err(PcError::ConfigValidation("no critics here".to_string()))
    }

    fn load_actor(
        &self,
        b: &CpuLinAlg,
        config: &networks::PcActorConfig,
        weights: &PcActorWeights,
    ) -> Result<PcActor, PcError> {
        Rig.load_actor(b, config, weights)
    }

    fn load_critic(
        &self,
        b: &CpuLinAlg,
        config: &networks::MlpCriticConfig,
        weights: &MlpCriticWeights,
    ) -> Result<MlpCritic, PcError> {
        Rig.load_critic(b, config, weights)
    }

    fn infer(&self, b: &CpuLinAlg, actor: &PcActor, input: &[Scalar]) -> InferResult {
        Rig.infer(b, actor, input)
    }

    fn select_action(
        &self,
        b: &CpuLinAlg,
        actor: &PcActor,
        output: &Vec<f64>,
        open: &[usize],
        mode: SelectionMode,
        rng: &StdRng,
    ) -> (usize, StdRng) {
        Rig.select_action(b, actor, output, open, mode, rng)
    }

    fn move_actor(
        &self,
        _: &CpuLinAlg,
        actor: &PcActor,
        _: &[Scalar],
        _: &InferResult,
        _: &[Scalar],
        _: Scalar,
        _: &[Scalar],
    ) -> PcActor {
        let mut moved = actor.copy();
        moved.layers[0].bias.push(0.0);
        moved
    }

    fn value(&self, _: &CpuLinAlg, _: &MlpCritic, _: &[Scalar]) -> Scalar {
        sc(0.25)
    }

    fn fit_critic(
        &self,
        _: &CpuLinAlg,
        critic: &MlpCritic,
        _: &[Scalar],
        _: Scalar,
    ) -> (MlpCritic, Scalar) {
        let mut moved = copy_critic(critic);
        moved.layers.pop();
        (moved, sc(3.0))
    }

    fn move_critic(
        &self,
        b: &CpuLinAlg,
        critic: &MlpCritic,
        input: &[Scalar],
        target: Scalar,
        _: Scalar,
        _: &[Scalar],
    ) -> (MlpCritic, Scalar) {
        self.fit_critic(b, critic, input, target)
    }

    fn cross_actors(
        &self,
        _: &CpuLinAlg,
        _: &PcActor,
        _: &PcActor,
        _: &Vec<Mat>,
        _: &Vec<Mat>,
        _: Scalar,
        _: &networks::PcActorConfig,
        _: &StdRng,
    ) -> Result<(PcActor, StdRng), PcError> {
        Err(PcError::ConfigValidation("no children here".to_string()))
    }

    fn cross_critics(
        &self,
        b: &CpuLinAlg,
        _: &MlpCritic,
        _: &MlpCritic,
        _: &Vec<Mat>,
        _: &Vec<Mat>,
        _: Scalar,
        config: &networks::MlpCriticConfig,
        rng: &StdRng,
    ) -> Result<(MlpCritic, StdRng), PcError> {
        self.build_critic(b, config, rng)
    }
}

#[test]
fn networks_of_another_shape_are_not_kept() {
    let mut cfg = ewc_config();
    cfg.actor_hysteresis = true;
    let mut agent = PcActorCritic::new(CpuLinAlg::new(), cfg, 42).unwrap();
    let before = collect_all_weights(&agent);
    for _ in 0..3 {
        assert!(agent.lib.can_step());
        agent.lib.step(&Growing, &scalars(&[0.5; 9]), sc(1.0), false);
    }
    assert_eq!(collect_all_weights(&agent), before);
    assert_eq!(fl(agent.last_td_error), 1.0 + 0.95 * 0.25 - 0.25);
    assert_eq!(agent.td_errors().len(), 2);
    let mut t = make_trajectory(&mut agent);
    t.truncate(1);
    let t = vec![trajectory::TrajectoryStep::<CpuLinAlg> {
        input: t[0].input.clone(),
        latent_concat: t[0].latent_concat.clone(),
        y_conv: t[0].y_conv.clone(),
        hidden_states: t[0].hidden_states.clone(),
        prediction_errors: t[0].prediction_errors.clone(),
        tanh_components: t[0].tanh_components.clone(),
        action: t[0].action,
        valid_actions: t[0].valid_actions.clone(),
        reward: sc(1.0),
        surprise_score: t[0].surprise_score,
        steps_used: 1,
    }];
    assert_eq!(fl(agent.lib.learn(&Growing, &t)), 3.0);
    assert_eq!(collect_all_weights(&agent), before);
}

#[test]
fn refusals_of_the_networks_are_handed_on() {
    let said = agent::PcActorCritic::new(&Growing, CpuLinAlg::new(), default_config().lib(), 1)
        .err()
        .unwrap()
        .to_string();
    assert_eq!(said, "no critics here");
    let mut a = make_agent();
    let (actor, critic) = build_caches_for_agent(&mut a, 4);
    let said = agent::PcActorCritic::crossover(
        &Growing,
        &a.lib,
        &a.lib,
        &actor,
        &actor,
        &critic,
        &critic,
        sc(0.5),
        default_config().lib(),
        1,
    )
    .err()
    .unwrap()
    .to_string();
    assert_eq!(said, "no children here");
}

#[test]
fn counts_that_are_full_stop_the_agent() {
    let mut cfg = default_config();
    cfg.actor_hysteresis = true;
    let mut agent = PcActorCritic::new(CpuLinAlg::new(), cfg, 42).unwrap();
    assert!(agent.lib.can_step());
    agent.lib.actor_plastic_step_counter = u64::MAX;
    assert!(!agent.lib.can_step());
    agent.lib.actor_hysteresis = None;
    assert!(agent.lib.can_step());
}

#[test]
fn first_step_learns_nothing() {
    let mut agent = make_agent();
    let before = collect_all_weights(&agent);
    agent.step(&[0.5; 9], 1.0, false);
    assert_eq!(collect_all_weights(&agent), before);
    assert_eq!(agent.steps_since_last_rollback_hard, u64::MAX);
    agent.step(&[0.5; 9], 1.0, true);
    assert_ne!(collect_all_weights(&agent), before);
    assert!(agent.lib.take_previous().is_none());
}

#[test]
fn replay_leaves_the_running_episode_alone() {
    let mut cfg = replay_config(10, 0);
    cfg.gae_lambda = Some(0.9);
    let mut agent = PcActorCritic::new(CpuLinAlg::new(), cfg, 42).unwrap();
    for _ in 0..6 {
        agent.step(&[0.5; 9], 1.0, false);
    }
    let before = (agent.trace(), agent.td_errors(), fl(agent.last_td_error));
    let weights = collect_all_weights(&agent);
    agent.replay_learn(4).unwrap();
    assert_eq!((agent.trace(), agent.td_errors(), fl(agent.last_td_error)), before);
    assert_ne!(collect_all_weights(&agent), weights);
    assert_eq!(agent.replay_buffer.as_ref().unwrap().total_len(), 5);
}

#[test]
fn remembered_vectors_are_passed_over() {
    let mut cfg = replay_config(10, 0);
    cfg.action_space = ActionSpace::Continuous;
    let mut agent = PcActorCritic::new(CpuLinAlg::new(), cfg, 42).unwrap();
    let t = ReplayTransition {
        state: scalars(&[0.5; 9]),
        action: Action::Continuous(scalars(&[0.1; 9])),
        reward: sc(100.0),
        next_state: scalars(&[0.5; 9]),
        done: true,
        valid_actions: None,
    };
    let before = collect_all_weights(&agent);
    assert_eq!(agent.lib.replay_one(&Rig, &t, sc(0.0)).map(fl).unwrap(), 0.0);
    assert_eq!(collect_all_weights(&agent), before);
    assert_eq!(agent.replay_clamp_count(), 0);
    let t = ReplayTransition { action: Action::Discrete(2), ..t };
    agent.lib.replay_one(&Rig, &t, sc(0.0)).unwrap();
    assert_ne!(collect_all_weights(&agent), before);
    assert_eq!(agent.replay_clamp_count(), 1);
}

#[test]
fn choosing_moves_only_the_random_numbers() {
    let mut agent = make_agent();
    let before = collect_all_weights(&agent);
    let old = agent.lib.rng.clone();
    let (action, infer) = agent.act(&[0.5; 9], &[3], SelectionMode::Play);
    assert_eq!(action, 3);
    assert_eq!(infer.y_conv, agent.infer(&[0.5; 9]).y_conv);
    assert!(agent.lib.rng == old);
    agent.act(&[0.5; 9], &[1, 2], SelectionMode::Training);
    assert!(agent.lib.rng != old);
    assert_eq!(collect_all_weights(&agent), before);
    assert!(agent.lib.take_previous().is_none());
}

#[test]
fn empty_draw_changes_nothing() {
    let mut none = make_agent();
    let mut blank = PcActorCritic::new(CpuLinAlg::new(), replay_config(10, 5), 42).unwrap();
    let mut zero = PcActorCritic::new(CpuLinAlg::new(), replay_config(10, 5), 42).unwrap();
    for _ in 0..4 {
        zero.step(&[0.5; 9], 1.0, false);
    }
    for (agent, batch) in [(&mut none, 8), (&mut blank, 8), (&mut zero, 0)] {
        let rng = agent.lib.rng.clone();
        let weights = collect_all_weights(agent);
        assert!(agent.lib.sample_replay_batch(batch).is_empty());
        agent.replay_learn(batch).unwrap();
        assert!(agent.lib.rng == rng);
        assert_eq!(collect_all_weights(agent), weights);
        assert_eq!(agent.replay_clamp_count(), 0);
    }
    let rng = zero.lib.rng.clone();
    assert_eq!(zero.lib.sample_replay_batch(2).len(), 2);
    assert!(zero.lib.rng != rng);
}

#[test]
fn ragged_caches_of_different_sizes_are_refused() {
    let mut a = make_agent();
    let (whole, critic) = build_caches_for_agent(&mut a, 3);
    let (mut ragged, _) = build_caches_for_agent(&mut a, 2);
    ragged.layers[0][1].truncate(1);
    let refused = agent::PcActorCritic::crossover(
        &Rig,
        &a.lib,
        &a.lib,
        &ragged,
        &whole,
        &critic,
        &critic,
        sc(0.5),
        default_config().lib(),
        1,
    );
    match refused {
        Err(PcError::DimensionMismatch { expected, got, .. }) => assert_eq!((expected, got), (2, 3)),
        _ => panic!("expected a mismatch"),
    }
}

#[test]
fn activation_functions_are_saved_and_come_back() {
    let mut cfg = default_config();
    cfg.actor.hidden_layers[0].activation = Activation::Softsign;
    cfg.critic.hidden_layers[0].activation = Activation::Relu;
    cfg.distillation_lambda_polyak = 0.1;
    cfg.distillation_lambda_frozen = 0.1;
    let agent = PcActorCritic::new(CpuLinAlg::new(), cfg, 42).unwrap();
    let copied = agent.lib.actor.copy();
    assert_eq!(copied.layers[0].activation, Activation::Softsign);
    assert_eq!(agent.lib.polyak_target.as_ref().unwrap().layers[0].activation, Activation::Softsign);
    let file = agent.lib.snapshot(new_metadata("1.0.0", 0, None));
    let saved = |l: &Vec<LayerWeights>| l.iter().map(|x| x.activation).collect::<Vec<_>>();
    let actor = vec![Activation::Softsign, Activation::Tanh];
    assert_eq!(saved(&file.actor_weights.layers), actor);
    assert_eq!(saved(&file.polyak_target_weights.as_ref().unwrap().layers), actor);
    assert_eq!(saved(&file.frozen_champion_weights.as_ref().unwrap().layers), actor);
    assert_eq!(saved(&file.critic_weights.layers)[0], Activation::Relu);
    let (back, _) =
        agent::PcActorCritic::load(&Rig, file, agent.lib.rng.clone(), CpuLinAlg::new()).unwrap();
    assert_eq!(back.actor.layers[0].activation, Activation::Softsign);
    assert_eq!(back.critic.layers[0].activation, Activation::Relu);
    assert_eq!(back.frozen_champion.unwrap().layers[0].activation, Activation::Softsign);
}

#[test]
fn unusable_value_of_the_critic_changes_nothing_but_the_count() {
    let mut agent = make_agent();
    let last = agent.lib.critic.layers.len() - 1;
    agent.lib.critic.layers[last].bias[0] = f64::NAN;
    agent.lib.steps_since_last_rollback_hard = 4;
    let (state, infer, _, valid) = observed(&agent, 0);
    let before = agent.lib.actor.layers[0].weights.clone();
    let step = LearnStep::online(
        &state, &infer, 0, &valid, sc(1.0), &state, &infer, false, sc(0.9),
    );
    assert_eq!(agent.lib.learn_continuous_inner(&Rig, &step).map(fl).unwrap(), 0.0);
    assert_eq!(agent.lib.actor.layers[0].weights, before);
    assert_eq!(agent.lib.steps_since_last_rollback_hard, 5);
    assert!(agent.td_errors().is_empty());
}

#[test]
fn champion_comes_back_after_any_run() {
    let mut cfg = replay_config(10, 5);
    cfg.distillation_lambda_polyak = 0.1;
    cfg.distillation_lambda_frozen = 0.1;
    let mut agent = PcActorCritic::new(CpuLinAlg::new(), cfg, 42).unwrap();
    for _ in 0..3 {
        agent.step(&[0.5; 9], 1.0, false);
    }
    agent.lib.champion_update().unwrap();
    let named: Vec<Mat> = agent.lib.actor.layers.iter().map(|l| l.weights.clone()).collect();
    for _ in 0..4 {
        agent.step(&[-0.5; 9], 1.0, false);
    }
    agent.replay_learn(4).unwrap();
    agent.lib.rollback_soft().unwrap();
    let t = make_trajectory(&mut agent);
    agent.learn(&t);
    agent.lib.reset_step();
    agent.step(&[0.25; 9], 0.0, false);
    let live: Vec<Mat> = agent.lib.actor.layers.iter().map(|l| l.weights.clone()).collect();
    assert_ne!(live, named);
    agent.lib.set_rollback_hard_cooldown(0);
    agent.lib.rollback_hard().unwrap();
    let back: Vec<Mat> = agent.lib.actor.layers.iter().map(|l| l.weights.clone()).collect();
    assert_eq!(back, named);
}

#[test]
fn learning_looks_past_its_surroundings() {
    let mut a = PcActorCritic::new(CpuLinAlg::new(), replay_config(10, 5), 42).unwrap();
    let mut b = PcActorCritic::new(CpuLinAlg::new(), replay_config(10, 5), 42).unwrap();
    b.lib.rng = StdRng::seed_from_u64(7);
    b.lib.replay_buffer = None;
    b.lib.rollback_hard_cooldown_steps = 3;
    let (state, infer, _, valid) = observed(&a, 0);
    let step = LearnStep::online(
        &state, &infer, 2, &valid, sc(1.0), &state, &infer, false, sc(0.9),
    );
    let x = a.lib.learn_continuous_inner(&Rig, &step).map(fl).unwrap();
    let y = b.lib.learn_continuous_inner(&Rig, &step).map(fl).unwrap();
    assert_eq!(x, y);
    assert_eq!(collect_all_weights(&a), collect_all_weights(&b));
    assert!(b.lib.rng == StdRng::seed_from_u64(7) && b.lib.replay_buffer.is_none());
}

#[test]
fn scale_grows_from_floor_to_ceiling() {
    let agent = make_agent();
    let scale = |x: f64| fl(agent.lib.surprise_scale(sc(x)));
    let mut last = scale(-1.0);
    assert_eq!(last, agent.config.scale_floor);
    for i in 0..60 {
        let next = scale(i as f64 * 0.005);
        assert!(last <= next);
        last = next;
    }
    assert_eq!(last, agent.config.scale_ceil);
}

#[test]
fn replay_floor_below_the_sentinel_is_accepted_and_not_set() {
    let mut cfg = replay_config(10, 5);
    cfg.scale_floor_replay = -2.0;
    cfg.critic_floor_replay = -1.5;
    let mut agent = PcActorCritic::new(CpuLinAlg::new(), cfg, 42).unwrap();
    for surprise in [0.0, 0.1, 1.0] {
        for mode in [LearnMode::Online, LearnMode::Replay] {
            assert_eq!(
                fl(agent.lib.effective_actor_scale_for_mode(sc(surprise), mode)),
                fl(agent.lib.surprise_scale(sc(surprise)))
            );
            assert_eq!(
                fl(agent.lib.effective_critic_scale_for_mode(sc(surprise), mode)),
                fl(agent.lib.critic_surprise_scale(sc(surprise)))
            );
        }
    }
    agent.lib.config.scale_floor_replay = sc(0.25);
    assert_eq!(fl(agent.lib.effective_actor_scale_for_mode(sc(1.0), LearnMode::Replay)), 0.25);
    agent.lib.config.scale_floor_replay = sc(20.5);
    assert_eq!(fl(agent.lib.effective_actor_scale_for_mode(sc(1.0), LearnMode::Replay)), 2.0);
}

#[test]
fn anchors_of_another_topology_are_refused() {
    let mut cfg = default_config();
    cfg.distillation_lambda_polyak = 0.1;
    cfg.distillation_lambda_frozen = 0.1;
    let mut agent = PcActorCritic::new(CpuLinAlg::new(), cfg, 42).unwrap();
    agent.step(&[0.5; 9], 1.0, false);
    agent.step(&[0.5; 9], 1.0, false);
    let weights = collect_all_weights(&agent);
    let trace = agent.td_errors();
    let said = "the anchor does not fit the actor";
    agent.lib.frozen_champion.as_mut().unwrap().layers[0].bias.push(0.0);
    assert_eq!(agent.lib.rollback_hard().unwrap_err().to_string(), said);
    assert_eq!(agent.lib.champion_update().unwrap_err().to_string(), said);
    assert_eq!(agent.td_errors(), trace);
    agent.lib.polyak_target.as_mut().unwrap().layers.pop();
    assert_eq!(agent.lib.rollback_soft().unwrap_err().to_string(), said);
    assert_eq!(collect_all_weights(&agent), weights);
    agent.lib.frozen_champion.as_mut().unwrap().layers[0].bias.pop();
    assert_eq!(agent.lib.rollback_hard().unwrap_err().to_string(), said);
    assert_eq!(collect_all_weights(&agent), weights);
    assert!(agent.lib.champion_update().is_ok());
}
