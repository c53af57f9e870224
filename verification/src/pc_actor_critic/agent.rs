//! The agent: its networks, its learning state and how it is built and reconfigured.

use std::collections::VecDeque;

use rand::rngs::StdRng;
use vstd::prelude::*;

use crate::error::PcError;
use crate::linalg::{zero_seq, LinAlg};
use crate::networks::{layer_views, InferResult, MlpCritic, PcActor};
use crate::numeric::zero_list;
use crate::pc_actor_critic::config::PcActorCriticConfig;
use crate::pc_actor_critic::ewma::{EwmaTracker, PlasticityState};
use crate::pc_actor_critic::fisher::{
    build_fisher_for_layers, fisher_views, fresh_fishers, FisherState,
};
use crate::pc_actor_critic::hysteresis::HysteresisState;
use crate::pc_actor_critic::replay::{ReplayBuffer, ReplayView};
use crate::pc_actor_critic::topology::{compare_topology, topology_complaint};
use crate::pc_actor_critic::validation::{
    build_complaint, config_complaint, validate_build, validate_config,
};
use crate::random::{seed_rng, seeded};
use crate::reading::{
    near, powers_stay_small, reads, reads_ceilings, reads_quotients, real_pow, sized, Reading,
};
use crate::scalar::Scalar;

verus! {

/// Learning steps that have to pass between two hard rollbacks, unless set otherwise.
pub const DEFAULT_ROLLBACK_HARD_COOLDOWN: u64 = 100;

/// Steps since the last hard rollback of an agent that never had one.
pub const NEVER_ROLLED_BACK: u64 = u64::MAX;

/// A step that waits for its n-step return.
pub struct TdTransition<L: LinAlg> {
    /// Observation.
    pub state: L::Vector,
    /// Inference at the observation.
    pub infer: InferResult<L>,
    /// Action taken.
    pub action: usize,
    /// Actions that were open.
    pub valid_actions: Vec<usize>,
    /// Reward received.
    pub reward: Scalar,
}

/// The agent.
pub struct PcActorCritic<L: LinAlg> {
    /// Actor network.
    pub actor: PcActor<L>,
    /// Critic network.
    pub critic: MlpCritic<L>,
    /// Configuration.
    pub config: PcActorCriticConfig,
    /// Random numbers.
    pub rng: StdRng,
    /// Recent surprise scores, oldest first.
    pub surprise_buffer: VecDeque<Scalar>,
    /// Numeric backend.
    pub backend: L,
    /// Observation of the step that waits to be learned from.
    pub state_prev: Option<L::Vector>,
    /// Action of that step.
    pub action_prev: Option<usize>,
    /// Inference of that step.
    pub infer_prev: Option<InferResult<L>>,
    /// Actions that were open in that step; none for all.
    pub valid_actions_prev: Option<Vec<usize>>,
    /// Plasticity of the actor.
    pub actor_hysteresis: Option<HysteresisState>,
    /// Plasticity of the critic.
    pub critic_hysteresis: Option<HysteresisState>,
    /// Steps that the actor has been plastic.
    pub actor_plastic_step_counter: u64,
    /// Steps that the critic has been plastic.
    pub critic_plastic_step_counter: u64,
    /// Steps that the critic has been frozen.
    pub critic_frozen_steps: u64,
    /// Steps that the actor has been frozen.
    pub actor_frozen_steps: u64,
    /// Recent magnitudes of the TD error, oldest first.
    pub td_error_buffer: VecDeque<Scalar>,
    /// TD error of the last learning step.
    pub last_td_error: Scalar,
    /// Learning decay per hidden layer of the actor.
    pub actor_decay_factors: Vec<Scalar>,
    /// Learning decay per hidden layer of the critic.
    pub critic_decay_factors: Vec<Scalar>,
    /// Smoothed prediction error per hidden layer of the actor.
    pub layer_error_ema: Vec<Scalar>,
    /// Parameter importance per layer of the actor.
    pub actor_fisher: Vec<FisherState<L>>,
    /// Parameter importance per layer of the critic.
    pub critic_fisher: Vec<FisherState<L>>,
    /// Whether the actor's last plastic phase was long enough to count.
    pub actor_last_phase_reliable: bool,
    /// Whether the critic's last plastic phase was long enough to count.
    pub critic_last_phase_reliable: bool,
    /// Steps that wait for their n-step return, oldest first.
    pub td_buffer: VecDeque<TdTransition<L>>,
    /// Eligibility trace over the actions.
    pub actor_trace: Vec<Scalar>,
    /// Slowly following copy of the actor.
    pub polyak_target: Option<PcActor<L>>,
    /// Best actor so far.
    pub frozen_champion: Option<PcActor<L>>,
    /// Learning steps that have to pass between two hard rollbacks.
    pub rollback_hard_cooldown_steps: u64,
    /// Learning steps since the last hard rollback.
    pub steps_since_last_rollback_hard: u64,
    /// Replay memory.
    pub replay_buffer: Option<ReplayBuffer>,
    /// Replay steps in which the TD error had to be clamped.
    pub replay_clamp_count: u64,
}

/// The length of the eligibility trace: one entry per action where there is a trace.
pub open spec fn trace_len(config: PcActorCriticConfig) -> nat {
    if config.gae_lambda is Some {
        config.actor.output_size as nat
    } else {
        0
    }
}

/// Learning decay per hidden layer: the base to the power of the distance from the last.
pub open spec fn decay_factors<L: LinAlg>(base: Scalar, layers: nat) -> Seq<Scalar> {
    Seq::new(layers, |i: int| L::power(base, (layers - 1 - i) as nat))
}

/// Smoothed prediction errors at the start.
pub open spec fn fresh_error_ema(config: PcActorCriticConfig) -> Seq<Scalar> {
    if config.adaptive_consolidation {
        zero_seq(config.actor.hidden_layers@.len())
    } else {
        Seq::empty()
    }
}

/// Steps of a plastic phase that make it reliable: `ceil(1 / (1 - beta))`.
pub open spec fn reliable_phase<L: LinAlg>(config: PcActorCriticConfig) -> u64 {
    L::ceiling(L::over(Scalar::one(), L::minus(Scalar::one(), config.fisher_ema_beta)))
}

/// Steps before a fresh network may freeze on account of consolidation.
pub open spec fn fisher_phase<L: LinAlg>(config: PcActorCriticConfig) -> u64 {
    if Scalar::zero().below(config.ewc_lambda) {
        reliable_phase::<L>(config)
    } else {
        0
    }
}

/// A plasticity machine at the start, plastic and without samples.
pub open spec fn fresh_hysteresis(
    enabled: bool,
    fast_window: usize,
    slow_window: usize,
    wake_fraction: Scalar,
    sleep_fraction: Scalar,
    phase: u64,
) -> Option<HysteresisState> {
    if enabled {
        Some(
            HysteresisState {
                fast: EwmaTracker { value: Scalar::zero(), k: 0, window: fast_window },
                slow: EwmaTracker { value: Scalar::zero(), k: 0, window: slow_window },
                state: PlasticityState::Plastic,
                wake_fraction,
                sleep_fraction,
                min_initial_plastic: if slow_window <= phase {
                    phase
                } else {
                    slow_window as u64
                },
            },
        )
    } else {
        None
    }
}

/// The actor's plasticity machine at the start.
pub open spec fn fresh_actor_hysteresis<L: LinAlg>(
    c: PcActorCriticConfig,
) -> Option<HysteresisState> {
    fresh_hysteresis(
        c.actor_hysteresis,
        c.actor_fast_window,
        c.actor_slow_window,
        c.actor_wake_fraction,
        c.actor_sleep_fraction,
        fisher_phase::<L>(c),
    )
}

/// The critic's plasticity machine at the start.
pub open spec fn fresh_critic_hysteresis<L: LinAlg>(
    c: PcActorCriticConfig,
) -> Option<HysteresisState> {
    fresh_hysteresis(
        c.critic_hysteresis,
        c.critic_fast_window,
        c.critic_slow_window,
        c.critic_wake_fraction,
        c.critic_sleep_fraction,
        fisher_phase::<L>(c),
    )
}

/// What a replay memory that may be absent holds.
pub open spec fn replay_opt(b: Option<ReplayBuffer>) -> Option<ReplayView> {
    match b {
        Some(b) => Some(b@),
        None => None,
    }
}

/// The replay memory at the start: there is one where it has room.
pub open spec fn fresh_replay(c: PcActorCriticConfig) -> Option<ReplayView> {
    if c.replay_training_capacity > 0 {
        Some(
            ReplayView::blank(
                c.replay_training_capacity as nat,
                c.replay_recent_capacity as nat,
                c.replay_positive_only,
                c.action_space,
            ),
        )
    } else {
        None
    }
}

/// An anchor is there exactly where its pull is positive, and is a copy of the actor.
pub open spec fn fresh_anchor<L: LinAlg>(
    slot: Option<PcActor<L>>,
    pull: Scalar,
    actor: PcActor<L>,
) -> bool {
    match slot {
        Some(a) => Scalar::zero().below(pull) && a.alike(actor),
        None => !Scalar::zero().below(pull),
    }
}

/// The replay memory after a change of configuration: kept where sizes and filter stay the
/// same, started afresh where they change, given up where there is no room for one.
pub open spec fn replay_after(
    old_config: PcActorCriticConfig,
    old_buffer: Option<ReplayView>,
    new_config: PcActorCriticConfig,
) -> Option<ReplayView> {
    if old_config.replay_training_capacity > 0 && new_config.replay_training_capacity
        == old_config.replay_training_capacity && new_config.replay_recent_capacity
        == old_config.replay_recent_capacity && new_config.replay_positive_only
        == old_config.replay_positive_only {
        old_buffer
    } else {
        fresh_replay(new_config)
    }
}

impl<L: LinAlg> PcActorCritic<L> {
    /// Nothing has been learned or counted under the current configuration.
    pub open spec fn at_baseline(self) -> bool {
        &&& self.surprise_buffer@ == Seq::<Scalar>::empty()
        &&& self.state_prev is None
        &&& self.action_prev is None
        &&& self.infer_prev is None
        &&& self.valid_actions_prev is None
        &&& self.actor_plastic_step_counter == 0
        &&& self.critic_plastic_step_counter == 0
        &&& self.critic_frozen_steps == 0
        &&& self.actor_frozen_steps == 0
        &&& self.td_error_buffer@ == Seq::<Scalar>::empty()
        &&& self.last_td_error == Scalar::zero()
        &&& self.actor_decay_factors@ == decay_factors::<L>(
            self.config.consolidation_decay,
            self.config.actor.hidden_layers@.len(),
        )
        &&& self.critic_decay_factors@ == decay_factors::<L>(
            self.config.critic_consolidation_decay,
            self.config.critic.hidden_layers@.len(),
        )
        &&& self.layer_error_ema@ == fresh_error_ema(self.config)
        &&& !self.actor_last_phase_reliable
        &&& !self.critic_last_phase_reliable
        &&& self.td_buffer@.len() == 0
        &&& self.actor_trace@ == zero_seq(trace_len(self.config))
        &&& fresh_anchor(self.polyak_target, self.config.distillation_lambda_polyak, self.actor)
        &&& fresh_anchor(self.frozen_champion, self.config.distillation_lambda_frozen, self.actor)
        &&& self.rollback_hard_cooldown_steps == DEFAULT_ROLLBACK_HARD_COOLDOWN
        &&& self.steps_since_last_rollback_hard == NEVER_ROLLED_BACK
        &&& self.replay_clamp_count == 0
    }

    /// Plasticity machines, importance records and replay memory as the configuration asks.
    pub open spec fn fully_equipped(self) -> bool {
        &&& self.actor_hysteresis == fresh_actor_hysteresis::<L>(self.config)
        &&& self.critic_hysteresis == fresh_critic_hysteresis::<L>(self.config)
        &&& fisher_views(self.actor_fisher@) == fresh_fishers(
            layer_views(self.actor.layers@),
            self.config.ewc_lambda,
        )
        &&& fisher_views(self.critic_fisher@) == fresh_fishers(
            layer_views(self.critic.layers@),
            self.config.ewc_lambda,
        )
    }

    /// An agent around freshly built networks: nothing learned, and equipped as the
    /// configuration asks.
    pub open spec fn assembled(
        self,
        backend: L,
        config: PcActorCriticConfig,
        actor: PcActor<L>,
        critic: MlpCritic<L>,
        rng: StdRng,
    ) -> bool {
        &&& self.at_baseline()
        &&& self.fully_equipped()
        &&& replay_opt(self.replay_buffer) == fresh_replay(config)
        &&& self.config == config
        &&& self.actor == actor
        &&& self.critic == critic
        &&& self.rng == rng
        &&& self.backend == backend
    }

    /// No plasticity machines, importance records or replay memory.
    pub open spec fn unequipped(self) -> bool {
        &&& self.actor_hysteresis is None
        &&& self.critic_hysteresis is None
        &&& self.actor_fisher@.len() == 0
        &&& self.critic_fisher@.len() == 0
        &&& self.replay_buffer is None
    }

    /// The length of the eligibility trace.
    pub fn gae_trace_len(config: &PcActorCriticConfig) -> (r: usize)
        ensures
            r == trace_len(*config),
    {
        if config.gae_lambda.is_some() {
            config.actor.output_size
        } else {
            0
        }
    }

    fn decay_of(base: Scalar, n: usize) -> (r: Vec<Scalar>)
        ensures
            r@ == decay_factors::<L>(base, n as nat),
    {
        let mut out: Vec<Scalar> = Vec::new();
        let mut i: usize = 0;
        while i < n
            invariant
                i <= n,
                out@.len() == i,
                forall|j: int|
                    0 <= j < i ==> out@[j] == L::power(base, (n - 1 - j) as nat),
            decreases n - i,
        {
            out.push(L::scalar_powi(base, n - 1 - i));
            i = i + 1;
        }
        assert(out@ =~= decay_factors::<L>(base, n as nat));
        out
    }

    /// Learning decay of actor and critic per hidden layer, and the actor's smoothed
    /// prediction errors at the start.
    pub fn compute_decay_factors(config: &PcActorCriticConfig) -> (r: (
        Vec<Scalar>,
        Vec<Scalar>,
        Vec<Scalar>,
    ))
        ensures
            r.0@ == decay_factors::<L>(
                config.consolidation_decay,
                config.actor.hidden_layers@.len(),
            ),
            r.1@ == decay_factors::<L>(
                config.critic_consolidation_decay,
                config.critic.hidden_layers@.len(),
            ),
            r.2@ == fresh_error_ema(*config),
    {
        let n_actor: usize = config.actor.hidden_layers.len();
        let n_critic: usize = config.critic.hidden_layers.len();
        let actor = Self::decay_of(config.consolidation_decay, n_actor);
        let critic = Self::decay_of(config.critic_consolidation_decay, n_critic);
        let ema = if config.adaptive_consolidation {
            zero_list(n_actor)
        } else {
            Vec::new()
        };
        (actor, critic, ema)
    }

    /// Steps of a plastic phase that make it reliable; none where consolidation is off.
    pub fn min_fisher_phase(config: &PcActorCriticConfig) -> (r: u64)
        ensures
            r == fisher_phase::<L>(*config),
    {
        if Scalar::zero().lt(config.ewc_lambda) {
            L::scalar_ceil(
                L::scalar_div(
                    Scalar::one(),
                    L::scalar_sub(Scalar::one(), config.fisher_ema_beta),
                ),
            )
        } else {
            0
        }
    }

    /// A plasticity machine at the start, where it is wanted.
    pub fn build_hysteresis(
        enabled: bool,
        fast_window: usize,
        slow_window: usize,
        wake_fraction: Scalar,
        sleep_fraction: Scalar,
        phase: u64,
    ) -> (r: Option<HysteresisState>)
        ensures
            r == fresh_hysteresis(
                enabled,
                fast_window,
                slow_window,
                wake_fraction,
                sleep_fraction,
                phase,
            ),
    {
        if enabled {
            let min_initial_plastic: u64 = if slow_window as u64 <= phase {
                phase
            } else {
                slow_window as u64
            };
            Some(
                HysteresisState {
                    fast: EwmaTracker::new(fast_window),
                    slow: EwmaTracker::new(slow_window),
                    state: PlasticityState::Plastic,
                    wake_fraction,
                    sleep_fraction,
                    min_initial_plastic,
                },
            )
        } else {
            None
        }
    }

    fn build_both_hysteresis(config: &PcActorCriticConfig) -> (r: (
        Option<HysteresisState>,
        Option<HysteresisState>,
    ))
        ensures
            r.0 == fresh_actor_hysteresis::<L>(*config),
            r.1 == fresh_critic_hysteresis::<L>(*config),
    {
        let phase: u64 = Self::min_fisher_phase(config);
        let actor = Self::build_hysteresis(
            config.actor_hysteresis,
            config.actor_fast_window,
            config.actor_slow_window,
            config.actor_wake_fraction,
            config.actor_sleep_fraction,
            phase,
        );
        let critic = Self::build_hysteresis(
            config.critic_hysteresis,
            config.critic_fast_window,
            config.critic_slow_window,
            config.critic_wake_fraction,
            config.critic_sleep_fraction,
            phase,
        );
        (actor, critic)
    }

    /// The anchors that the configuration asks for, as copies of the actor.
    pub fn allocate_anchor_slots(config: &PcActorCriticConfig, actor: &PcActor<L>) -> (r: (
        Option<PcActor<L>>,
        Option<PcActor<L>>,
    ))
        ensures
            fresh_anchor(r.0, config.distillation_lambda_polyak, *actor),
            fresh_anchor(r.1, config.distillation_lambda_frozen, *actor),
    {
        let polyak = if Scalar::zero().lt(config.distillation_lambda_polyak) {
            Some(actor.copy())
        } else {
            None
        };
        let frozen = if Scalar::zero().lt(config.distillation_lambda_frozen) {
            Some(actor.copy())
        } else {
            None
        };
        (polyak, frozen)
    }

    /// The replay memory that the configuration asks for, with nothing in it.
    pub fn build_replay(config: &PcActorCriticConfig) -> (r: Option<ReplayBuffer>)
        ensures
            replay_opt(r) == fresh_replay(*config),
    {
        if config.replay_training_capacity > 0 {
            Some(
                ReplayBuffer::new(
                    config.replay_training_capacity,
                    config.replay_recent_capacity,
                    config.replay_positive_only,
                    config.action_space,
                ),
            )
        } else {
            None
        }
    }

    /// An agent around finished networks: nothing learned, no plasticity machines, no
    /// importance records, no replay memory.
    pub fn from_parts(
        config: PcActorCriticConfig,
        actor: PcActor<L>,
        critic: MlpCritic<L>,
        rng: StdRng,
        backend: L,
    ) -> (r: Self)
        ensures
            r.at_baseline(),
            r.unequipped(),
            r.config == config,
            r.actor == actor,
            r.critic == critic,
            r.rng == rng,
            r.backend == backend,
    {
        let (actor_decay_factors, critic_decay_factors, layer_error_ema) =
            Self::compute_decay_factors(&config);
        let actor_trace = zero_list(Self::gae_trace_len(&config));
        let (polyak_target, frozen_champion) = Self::allocate_anchor_slots(&config, &actor);
        PcActorCritic {
            actor,
            critic,
            config,
            rng,
            surprise_buffer: VecDeque::new(),
            backend,
            state_prev: None,
            action_prev: None,
            infer_prev: None,
            valid_actions_prev: None,
            actor_hysteresis: None,
            critic_hysteresis: None,
            actor_plastic_step_counter: 0,
            critic_plastic_step_counter: 0,
            critic_frozen_steps: 0,
            actor_frozen_steps: 0,
            td_error_buffer: VecDeque::new(),
            last_td_error: Scalar::zero(),
            actor_decay_factors,
            critic_decay_factors,
            layer_error_ema,
            actor_fisher: Vec::new(),
            critic_fisher: Vec::new(),
            actor_last_phase_reliable: false,
            critic_last_phase_reliable: false,
            td_buffer: VecDeque::new(),
            actor_trace,
            polyak_target,
            frozen_champion,
            rollback_hard_cooldown_steps: DEFAULT_ROLLBACK_HARD_COOLDOWN,
            steps_since_last_rollback_hard: NEVER_ROLLED_BACK,
            replay_buffer: None,
            replay_clamp_count: 0,
        }
    }

    /// Checks a configuration and seeds the generator that the networks are built with.
    pub fn prepare(config: &PcActorCriticConfig, seed: u64) -> (r: Result<StdRng, PcError>)
        ensures
            r is Ok <==> build_complaint::<L>(*config) is None,
            r matches Ok(rng) ==> rng == seeded(seed),
            r matches Err(e) ==> e.says(build_complaint::<L>(*config)->0),
    {
        match validate_build::<L>(config) {
            Ok(()) => Ok(seed_rng(seed)),
            Err(e) => Err(e),
        }
    }

    /// An agent around freshly built networks, equipped as the configuration asks.
    pub fn assemble(
        backend: L,
        config: PcActorCriticConfig,
        actor: PcActor<L>,
        critic: MlpCritic<L>,
        rng: StdRng,
    ) -> (r: Self)
        ensures
            r.assembled(backend, config, actor, critic, rng),
    {
        let mut agent = Self::from_parts(config, actor, critic, rng, backend);
        let (actor_hysteresis, critic_hysteresis) = Self::build_both_hysteresis(&agent.config);
        let actor_fisher = build_fisher_for_layers(
            &agent.backend,
            &agent.actor.layers,
            agent.config.ewc_lambda,
        );
        let critic_fisher = build_fisher_for_layers(
            &agent.backend,
            &agent.critic.layers,
            agent.config.ewc_lambda,
        );
        let replay_buffer = Self::build_replay(&agent.config);
        agent.actor_hysteresis = actor_hysteresis;
        agent.critic_hysteresis = critic_hysteresis;
        agent.actor_fisher = actor_fisher;
        agent.critic_fisher = critic_fisher;
        agent.replay_buffer = replay_buffer;
        agent
    }

    /// Checks that a new configuration describes the networks that the agent has.
    pub fn validate_topology_match(&self, config: &PcActorCriticConfig) -> (r: Result<(), PcError>)
        ensures
            r is Ok <==> topology_complaint::<L>(self.config, *config) is None,
            r matches Err(e) ==> e.says(topology_complaint::<L>(self.config, *config)->0),
    {
        compare_topology::<L>(&self.config, config)
    }

    /// Puts a new configuration in force. Networks, generator and backend stay; everything
    /// learned besides the weights starts over. A configuration that is not acceptable, or
    /// that describes other networks, is refused and nothing changes.
    pub fn apply_config(&mut self, config: PcActorCriticConfig) -> (r: Result<(), PcError>)
        ensures
            r is Ok <==> config_complaint::<L>(config) is None && topology_complaint::<L>(
                old(self).config,
                config,
            ) is None,
            r is Ok ==> {
                &&& final(self).at_baseline()
                &&& final(self).fully_equipped()
                &&& replay_opt(final(self).replay_buffer) == replay_after(
                    old(self).config,
                    replay_opt(old(self).replay_buffer),
                    config,
                )
                &&& final(self).config == config
                &&& final(self).actor == old(self).actor
                &&& final(self).critic == old(self).critic
                &&& final(self).rng == old(self).rng
                &&& final(self).backend == old(self).backend
            },
            r matches Err(e) ==> *final(self) == *old(self) && e.says(
                if config_complaint::<L>(config) is Some {
                    config_complaint::<L>(config)->0
                } else {
                    topology_complaint::<L>(old(self).config, config)->0
                },
            ),
    {
        match validate_config::<L>(&config) {
            Ok(()) => {},
            Err(e) => {
                return Err(e);
            },
        }
        match self.validate_topology_match(&config) {
            Ok(()) => {},
            Err(e) => {
                return Err(e);
            },
        }
        let (actor_decay_factors, critic_decay_factors, layer_error_ema) =
            Self::compute_decay_factors(&config);
        let actor_trace = zero_list(Self::gae_trace_len(&config));
        let (actor_hysteresis, critic_hysteresis) = Self::build_both_hysteresis(&config);
        let actor_fisher = build_fisher_for_layers(
            &self.backend,
            &self.actor.layers,
            config.ewc_lambda,
        );
        let critic_fisher = build_fisher_for_layers(
            &self.backend,
            &self.critic.layers,
            config.ewc_lambda,
        );
        let (polyak_target, frozen_champion) = Self::allocate_anchor_slots(&config, &self.actor);
        let keep = self.config.replay_training_capacity > 0 && config.replay_training_capacity
            == self.config.replay_training_capacity && config.replay_recent_capacity
            == self.config.replay_recent_capacity && config.replay_positive_only
            == self.config.replay_positive_only;
        let replay_buffer = if keep {
            self.replay_buffer.take()
        } else {
            Self::build_replay(&config)
        };
        self.config = config;
        self.surprise_buffer = VecDeque::new();
        self.state_prev = None;
        self.action_prev = None;
        self.infer_prev = None;
        self.valid_actions_prev = None;
        self.actor_hysteresis = actor_hysteresis;
        self.critic_hysteresis = critic_hysteresis;
        self.actor_plastic_step_counter = 0;
        self.critic_plastic_step_counter = 0;
        self.critic_frozen_steps = 0;
        self.actor_frozen_steps = 0;
        self.td_error_buffer = VecDeque::new();
        self.last_td_error = Scalar::zero();
        self.actor_decay_factors = actor_decay_factors;
        self.critic_decay_factors = critic_decay_factors;
        self.layer_error_ema = layer_error_ema;
        self.actor_fisher = actor_fisher;
        self.critic_fisher = critic_fisher;
        self.actor_last_phase_reliable = false;
        self.critic_last_phase_reliable = false;
        self.td_buffer = VecDeque::new();
        self.actor_trace = actor_trace;
        self.polyak_target = polyak_target;
        self.frozen_champion = frozen_champion;
        self.rollback_hard_cooldown_steps = DEFAULT_ROLLBACK_HARD_COOLDOWN;
        self.steps_since_last_rollback_hard = NEVER_ROLLED_BACK;
        self.replay_buffer = replay_buffer;
        self.replay_clamp_count = 0;
        Ok(())
    }
}

/// A hidden layer learns the slower, the further it lies from the last one: its decay is the
/// configured base, once for each layer between, and the last layer learns at full rate.
pub proof fn early_layers_learn_slower<L: LinAlg>(rd: Reading, agent: PcActorCritic<L>, i: int)
    requires
        reads::<L>(rd),
        agent.at_baseline(),
        agent.config.consolidation_decay.finite(),
        0 as real <= rd.of(agent.config.consolidation_decay) <= 1 as real,
        0 <= i < agent.config.actor.hidden_layers@.len(),
        1 as real <= rd.top,
    ensures
        agent.actor_decay_factors@.len() == agent.config.actor.hidden_layers@.len(),
        rd.shows(
            agent.actor_decay_factors@[i],
            real_pow(
                rd.of(agent.config.consolidation_decay),
                (agent.config.actor.hidden_layers@.len() - 1 - i) as nat,
            ),
            rd.slack,
        ),
        i == agent.config.actor.hidden_layers@.len() - 1 ==> rd.shows(
            agent.actor_decay_factors@[i],
            1 as real,
            rd.slack,
        ),
{
    powers_stay_small(
        rd.of(agent.config.consolidation_decay),
        (agent.config.actor.hidden_layers@.len() - 1 - i) as nat,
    );
}

/// The same of the critic.
pub proof fn early_critic_layers_learn_slower<L: LinAlg>(
    rd: Reading,
    agent: PcActorCritic<L>,
    i: int,
)
    requires
        reads::<L>(rd),
        agent.at_baseline(),
        agent.config.critic_consolidation_decay.finite(),
        0 as real <= rd.of(agent.config.critic_consolidation_decay) <= 1 as real,
        0 <= i < agent.config.critic.hidden_layers@.len(),
        1 as real <= rd.top,
    ensures
        agent.critic_decay_factors@.len() == agent.config.critic.hidden_layers@.len(),
        rd.shows(
            agent.critic_decay_factors@[i],
            real_pow(
                rd.of(agent.config.critic_consolidation_decay),
                (agent.config.critic.hidden_layers@.len() - 1 - i) as nat,
            ),
            rd.slack,
        ),
        i == agent.config.critic.hidden_layers@.len() - 1 ==> rd.shows(
            agent.critic_decay_factors@[i],
            1 as real,
            rd.slack,
        ),
{
    powers_stay_small(
        rd.of(agent.config.critic_consolidation_decay),
        (agent.config.critic.hidden_layers@.len() - 1 - i) as nat,
    );
}

/// A machine at the start is plastic, and may freeze only after as many samples as its slow window
/// is long, and as many as make a plastic phase reliable where weights are consolidated.
pub proof fn fresh_machines_wait_long_enough<L: LinAlg>(agent: PcActorCritic<L>)
    requires
        agent.fully_equipped(),
    ensures
        agent.actor_hysteresis is Some <==> agent.config.actor_hysteresis,
        agent.critic_hysteresis is Some <==> agent.config.critic_hysteresis,
        agent.actor_hysteresis matches Some(h) ==> {
            &&& h.state == PlasticityState::Plastic
            &&& h.fast.window == agent.config.actor_fast_window
            &&& h.slow.window == agent.config.actor_slow_window
            &&& h.min_initial_plastic >= agent.config.actor_slow_window
            &&& Scalar::zero().below(agent.config.ewc_lambda) ==> h.min_initial_plastic
                >= reliable_phase::<L>(agent.config)
        },
        agent.critic_hysteresis matches Some(h) ==> {
            &&& h.state == PlasticityState::Plastic
            &&& h.fast.window == agent.config.critic_fast_window
            &&& h.slow.window == agent.config.critic_slow_window
            &&& h.min_initial_plastic >= agent.config.critic_slow_window
            &&& Scalar::zero().below(agent.config.ewc_lambda) ==> h.min_initial_plastic
                >= reliable_phase::<L>(agent.config)
        },
{
}

proof fn memory_is_spanned(n: real, q: real, o: real, y: real, share: real, s: real)
    requires
        q * y == 1 as real,
        y > 0 as real,
        near(o, q, s),
        near(y, share, s),
        o <= n < o + 1 as real,
        n >= 0 as real,
        (0 as real) <= share <= 1 as real,
        0 as real <= s <= 1 as real,
    ensures
        1 as real - (n + 2 as real) * s <= n * share <= 1 as real + share + (n + 3 as real) * s,
{
    let d = share - y;
    assert(n * share == n * y + n * d) by (nonlinear_arith)
        requires
            d == share - y,
    ;
    assert(sized(n * d, n * s)) by (nonlinear_arith)
        requires
            sized(d, s),
            n >= 0 as real,
    ;
    assert(n * y >= 1 as real - s * y) by (nonlinear_arith)
        requires
            q * y == 1 as real,
            n >= q - s,
            y > 0 as real,
    ;
    assert(n * y <= 1 as real + s * y + y) by (nonlinear_arith)
        requires
            q * y == 1 as real,
            n <= q + s + 1 as real,
            y > 0 as real,
    ;
    assert(s * y <= (2 as real) * s) by (nonlinear_arith)
        requires
            y <= 2 as real,
            s >= 0 as real,
    ;
    assert((n + 2 as real) * s == n * s + (2 as real) * s && (n + 3 as real) * s == n * s
        + (3 as real) * s) by (nonlinear_arith);
}

/// A plastic phase is reliable when it is as long as the memory of the importance records: the
/// number of its steps, times the share that a record takes from each, is one, or less than a
/// further share above.
pub proof fn reliable_phase_spans_the_memory<L: LinAlg>(rd: Reading, config: PcActorCriticConfig)
    requires
        reads::<L>(rd),
        reads_quotients::<L>(rd),
        reads_ceilings::<L>(rd),
        config.fisher_ema_beta.finite(),
        0 as real <= rd.of(config.fisher_ema_beta) <= 1 as real,
        rd.slack + rd.slack <= 1 as real,
        1 as real <= rd.top,
        ({
            let least = 1 as real - rd.of(config.fisher_ema_beta) - rd.slack;
            least > 0 as real && 1 as real <= least * (rd.top - rd.slack)
        }),
    ensures
        ({
            let n = reliable_phase::<L>(config) as int as real;
            let share = 1 as real - rd.of(config.fisher_ema_beta);
            1 as real - (n + 2 as real) * rd.slack <= n * share <= 1 as real + share + (n
                + 3 as real) * rd.slack
        }),
{
    let one = Scalar::one();
    let s = rd.slack;
    let share = 1 as real - rd.of(config.fisher_ema_beta);
    let d = L::minus(one, config.fisher_ema_beta);
    assert(one.finite());
    assert(rd.shows(d, share, s));
    let y = rd.of(d);
    let q = 1 as real / y;
    let least = share - s;
    let room = rd.top - s;
    assert(y >= least && least > 0 as real);
    assert(q * y == 1 as real) by (nonlinear_arith)
        requires
            q == 1 as real / y,
            y > 0 as real,
    ;
    assert(q >= 0 as real) by (nonlinear_arith)
        requires
            q * y == 1 as real,
            y > 0 as real,
    ;
    assert(q * least <= 1 as real) by (nonlinear_arith)
        requires
            q * y == 1 as real,
            q >= 0 as real,
            y >= least,
    ;
    assert(q <= room) by (nonlinear_arith)
        requires
            q * least <= 1 as real,
            1 as real <= least * room,
            least > 0 as real,
    ;
    assert(q >= s) by (nonlinear_arith)
        requires
            q * y == 1 as real,
            (0 as real) < y <= 2 as real,
            s + s <= 1 as real,
            s >= 0 as real,
    ;
    let over = L::over(one, d);
    assert(rd.shows(over, q, s));
    let o = rd.of(over);
    let n = L::ceiling(over) as int as real;
    assert(o <= n < o + 1 as real);
    memory_is_spanned(n, q, o, y, share, s);
}

} // verus!
