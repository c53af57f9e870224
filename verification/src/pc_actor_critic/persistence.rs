//! Saving an agent and putting it together again.

use rand::rngs::StdRng;
use vstd::prelude::*;

use crate::linalg::{zero_seq, LinAlg};
use crate::networks::{activations, layer_views, Activation, ActorWeights, MlpCritic, PcActor};
use crate::pc_actor_critic::agent::{
    decay_factors, fresh_error_ema, fresh_replay, replay_opt, trace_len, PcActorCritic,
};
use crate::pc_actor_critic::config::PcActorCriticConfig;
use crate::pc_actor_critic::ewma::EwmaTracker;
use crate::pc_actor_critic::fisher::{fisher_views, FisherState, FisherView};
use crate::pc_actor_critic::hysteresis::HysteresisState;
use crate::pc_actor_critic::replay::{copy_scalars, ReplayBuffer};
use crate::scalar::Scalar;
use crate::serializer::{
    cpu_to_mat, mat_to_cpu, saved_activations, saved_layer_views, AgentMetadata, ClState,
    EwmaTrackerSerialized, FisherStateSerialized, HysteresisStateSerialized, Matrix,
    PcActorWeights, SaveFile,
};

verus! {

/// The moving average that was saved.
pub open spec fn tracker_of(t: EwmaTrackerSerialized) -> EwmaTracker {
    EwmaTracker { value: t.value, k: t.k, window: t.window }
}

/// The plasticity machine that was saved.
pub open spec fn machine_of(h: Option<HysteresisStateSerialized>) -> Option<HysteresisState> {
    match h {
        Some(h) => Some(
            HysteresisState {
                fast: tracker_of(h.fast),
                slow: tracker_of(h.slow),
                state: h.state,
                wake_fraction: h.wake_fraction,
                sleep_fraction: h.sleep_fraction,
                min_initial_plastic: h.min_initial_plastic,
            },
        ),
        None => None,
    }
}

/// A matrix that may be absent is well-formed where it is there.
pub open spec fn matrix_fine(m: Option<Matrix>) -> bool {
    m matches Some(m) ==> m.well_formed()
}

impl FisherStateSerialized {
    /// Every matrix has as many numbers as cells.
    pub open spec fn well_formed(self) -> bool {
        &&& self.f_total_weights.well_formed()
        &&& self.f_ema_weights.well_formed()
        &&& matrix_fine(self.theta_snapshot_weights)
        &&& matrix_fine(self.theta_snapshot_skip_proj)
    }

    /// The record that was saved.
    pub open spec fn record(self) -> FisherView {
        FisherView {
            total_weights: self.f_total_weights.grid(),
            total_bias: self.f_total_bias@,
            ema_weights: self.f_ema_weights.grid(),
            ema_bias: self.f_ema_bias@,
            snapshot_weights: match self.theta_snapshot_weights {
                Some(m) => Some(m.grid()),
                None => None,
            },
            snapshot_bias: match self.theta_snapshot_bias {
                Some(v) => Some(v@),
                None => None,
            },
            snapshot_rezero_alpha: self.theta_snapshot_rezero_alpha,
            snapshot_skip_proj: match self.theta_snapshot_skip_proj {
                Some(m) => Some(m.grid()),
                None => None,
            },
        }
    }
}

/// The records that were saved.
pub open spec fn records_of(f: Seq<FisherStateSerialized>) -> Seq<FisherView> {
    f.map_values(|s: FisherStateSerialized| s.record())
}

/// Every record is well-formed.
pub open spec fn records_fine(f: Seq<FisherStateSerialized>) -> bool {
    forall|i: int| 0 <= i < f.len() ==> (#[trigger] f[i]).well_formed()
}

impl ClState {
    /// Every record is well-formed.
    pub open spec fn well_formed(self) -> bool {
        records_fine(self.actor_fisher@) && records_fine(self.critic_fisher@)
    }

    /// The state is that of the agent.
    pub open spec fn describes<L: LinAlg>(self, agent: PcActorCritic<L>) -> bool {
        &&& machine_of(self.actor_hysteresis) == agent.actor_hysteresis
        &&& machine_of(self.critic_hysteresis) == agent.critic_hysteresis
        &&& self.actor_plastic_step_counter == agent.actor_plastic_step_counter
        &&& self.critic_plastic_step_counter == agent.critic_plastic_step_counter
        &&& self.critic_frozen_steps == agent.critic_frozen_steps
        &&& self.actor_frozen_steps == agent.actor_frozen_steps
        &&& records_of(self.actor_fisher@) == fisher_views(agent.actor_fisher@)
        &&& records_of(self.critic_fisher@) == fisher_views(agent.critic_fisher@)
        &&& self.actor_last_phase_reliable == agent.actor_last_phase_reliable
        &&& self.critic_last_phase_reliable == agent.critic_last_phase_reliable
        &&& self.layer_error_ema@ == agent.layer_error_ema@
    }
}

/// Saved records, or the ones at hand where none were saved.
pub open spec fn records_or(saved: Seq<FisherView>, at_hand: Seq<FisherView>) -> Seq<FisherView> {
    if saved.len() > 0 {
        saved
    } else {
        at_hand
    }
}

/// The agent's continual-learning state was taken over from a saved one; records and smoothed
/// errors only where some were saved. Nothing else changed.
pub open spec fn taken_over<L: LinAlg>(
    before: PcActorCritic<L>,
    after: PcActorCritic<L>,
    saved: ClState,
) -> bool {
    &&& after.actor_hysteresis == machine_of(saved.actor_hysteresis)
    &&& after.critic_hysteresis == machine_of(saved.critic_hysteresis)
    &&& fisher_views(after.actor_fisher@) == records_or(
        records_of(saved.actor_fisher@),
        fisher_views(before.actor_fisher@),
    )
    &&& fisher_views(after.critic_fisher@) == records_or(
        records_of(saved.critic_fisher@),
        fisher_views(before.critic_fisher@),
    )
    &&& after.layer_error_ema@ == if saved.layer_error_ema@.len() > 0 {
        saved.layer_error_ema@
    } else {
        before.layer_error_ema@
    }
    &&& after == (PcActorCritic {
        actor_hysteresis: after.actor_hysteresis,
        critic_hysteresis: after.critic_hysteresis,
        actor_plastic_step_counter: saved.actor_plastic_step_counter,
        critic_plastic_step_counter: saved.critic_plastic_step_counter,
        critic_frozen_steps: saved.critic_frozen_steps,
        actor_frozen_steps: saved.actor_frozen_steps,
        actor_fisher: after.actor_fisher,
        critic_fisher: after.critic_fisher,
        actor_last_phase_reliable: saved.actor_last_phase_reliable,
        critic_last_phase_reliable: saved.critic_last_phase_reliable,
        layer_error_ema: after.layer_error_ema,
        ..before
    })
}

/// The two agents have the same continual-learning state.
pub open spec fn same_learning_state<L: LinAlg>(a: PcActorCritic<L>, b: PcActorCritic<L>) -> bool {
    &&& a.actor_hysteresis == b.actor_hysteresis
    &&& a.critic_hysteresis == b.critic_hysteresis
    &&& a.actor_plastic_step_counter == b.actor_plastic_step_counter
    &&& a.critic_plastic_step_counter == b.critic_plastic_step_counter
    &&& a.critic_frozen_steps == b.critic_frozen_steps
    &&& a.actor_frozen_steps == b.actor_frozen_steps
    &&& fisher_views(a.actor_fisher@) == fisher_views(b.actor_fisher@)
    &&& fisher_views(a.critic_fisher@) == fisher_views(b.critic_fisher@)
    &&& a.actor_last_phase_reliable == b.actor_last_phase_reliable
    &&& a.critic_last_phase_reliable == b.critic_last_phase_reliable
    &&& a.layer_error_ema@ == b.layer_error_ema@
}

fn save_tracker(t: &EwmaTracker) -> (r: EwmaTrackerSerialized)
    ensures
        tracker_of(r) == *t,
{
    EwmaTrackerSerialized { value: t.value, k: t.k, window: t.window }
}

fn load_tracker(t: &EwmaTrackerSerialized) -> (r: EwmaTracker)
    ensures
        r == tracker_of(*t),
{
    EwmaTracker { value: t.value, k: t.k, window: t.window }
}

fn save_machine(h: &Option<HysteresisState>) -> (r: Option<HysteresisStateSerialized>)
    ensures
        machine_of(r) == *h,
{
    match h {
        Some(h) => Some(
            HysteresisStateSerialized {
                fast: save_tracker(&h.fast),
                slow: save_tracker(&h.slow),
                state: h.state,
                wake_fraction: h.wake_fraction,
                sleep_fraction: h.sleep_fraction,
                min_initial_plastic: h.min_initial_plastic,
            },
        ),
        None => None,
    }
}

fn load_machine(h: &Option<HysteresisStateSerialized>) -> (r: Option<HysteresisState>)
    ensures
        r == machine_of(*h),
{
    match h {
        Some(h) => Some(
            HysteresisState {
                fast: load_tracker(&h.fast),
                slow: load_tracker(&h.slow),
                state: h.state,
                wake_fraction: h.wake_fraction,
                sleep_fraction: h.sleep_fraction,
                min_initial_plastic: h.min_initial_plastic,
            },
        ),
        None => None,
    }
}

fn save_record<L: LinAlg>(backend: &L, f: &FisherState<L>) -> (r: FisherStateSerialized)
    ensures
        r.well_formed(),
        r.record() == f@,
{
    FisherStateSerialized {
        f_total_weights: mat_to_cpu(backend, &f.f_total_weights),
        f_total_bias: backend.vec_to_vec(&f.f_total_bias),
        f_ema_weights: mat_to_cpu(backend, &f.f_ema_weights),
        f_ema_bias: backend.vec_to_vec(&f.f_ema_bias),
        theta_snapshot_weights: match &f.theta_snapshot_weights {
            Some(m) => Some(mat_to_cpu(backend, m)),
            None => None,
        },
        theta_snapshot_bias: match &f.theta_snapshot_bias {
            Some(v) => Some(backend.vec_to_vec(v)),
            None => None,
        },
        theta_snapshot_rezero_alpha: f.theta_snapshot_rezero_alpha,
        theta_snapshot_skip_proj: match &f.theta_snapshot_skip_proj {
            Some(m) => Some(mat_to_cpu(backend, m)),
            None => None,
        },
    }
}

fn load_record<L: LinAlg>(backend: &L, f: &FisherStateSerialized) -> (r: FisherState<L>)
    requires
        f.well_formed(),
    ensures
        r@ == f.record(),
{
    FisherState {
        f_total_weights: cpu_to_mat(backend, &f.f_total_weights),
        f_total_bias: backend.vec_from_slice(f.f_total_bias.as_slice()),
        f_ema_weights: cpu_to_mat(backend, &f.f_ema_weights),
        f_ema_bias: backend.vec_from_slice(f.f_ema_bias.as_slice()),
        theta_snapshot_weights: match &f.theta_snapshot_weights {
            Some(m) => Some(cpu_to_mat(backend, m)),
            None => None,
        },
        theta_snapshot_bias: match &f.theta_snapshot_bias {
            Some(v) => Some(backend.vec_from_slice(v.as_slice())),
            None => None,
        },
        theta_snapshot_rezero_alpha: f.theta_snapshot_rezero_alpha,
        theta_snapshot_skip_proj: match &f.theta_snapshot_skip_proj {
            Some(m) => Some(cpu_to_mat(backend, m)),
            None => None,
        },
    }
}

fn save_records<L: LinAlg>(backend: &L, fishers: &Vec<FisherState<L>>) -> (r: Vec<
    FisherStateSerialized,
>)
    ensures
        records_fine(r@),
        records_of(r@) == fisher_views(fishers@),
{
    let mut out: Vec<FisherStateSerialized> = Vec::new();
    let mut i: usize = 0;
    while i < fishers.len()
        invariant
            i <= fishers@.len(),
            out@.len() == i,
            records_fine(out@),
            forall|j: int| 0 <= j < i ==> (#[trigger] out@[j]).record() == fishers@[j]@,
        decreases fishers@.len() - i,
    {
        out.push(save_record(backend, &fishers[i]));
        i = i + 1;
    }
    assert(records_of(out@) =~= fisher_views(fishers@));
    out
}

fn load_records<L: LinAlg>(backend: &L, saved: &Vec<FisherStateSerialized>) -> (r: Vec<
    FisherState<L>,
>)
    requires
        records_fine(saved@),
    ensures
        fisher_views(r@) == records_of(saved@),
{
    let mut out: Vec<FisherState<L>> = Vec::new();
    let mut i: usize = 0;
    while i < saved.len()
        invariant
            i <= saved@.len(),
            out@.len() == i,
            records_fine(saved@),
            forall|j: int| 0 <= j < i ==> (#[trigger] out@[j])@ == saved@[j].record(),
        decreases saved@.len() - i,
    {
        out.push(load_record(backend, &saved[i]));
        i = i + 1;
    }
    assert(fisher_views(out@) =~= records_of(saved@));
    out
}

impl<L: LinAlg> PcActorCritic<L> {
    /// Nothing is known about continual learning: no machines, no records, nothing counted.
    pub open spec fn nothing_to_save(self) -> bool {
        &&& self.actor_hysteresis is None
        &&& self.critic_hysteresis is None
        &&& self.actor_plastic_step_counter == 0
        &&& self.critic_plastic_step_counter == 0
        &&& self.critic_frozen_steps == 0
        &&& self.actor_frozen_steps == 0
        &&& self.actor_fisher@.len() == 0
        &&& self.critic_fisher@.len() == 0
        &&& !self.actor_last_phase_reliable
        &&& !self.critic_last_phase_reliable
        &&& self.layer_error_ema@.len() == 0
    }

    /// The continual-learning state as it is saved; none where nothing is known.
    pub fn to_cl_state(&self) -> (r: Option<ClState>)
        ensures
            r is None <==> self.nothing_to_save(),
            r matches Some(c) ==> c.well_formed() && c.describes(*self),
    {
        if self.actor_hysteresis.is_none() && self.critic_hysteresis.is_none()
            && self.actor_plastic_step_counter == 0 && self.critic_plastic_step_counter == 0
            && self.critic_frozen_steps == 0 && self.actor_frozen_steps == 0
            && self.actor_fisher.len() == 0 && self.critic_fisher.len() == 0
            && !self.actor_last_phase_reliable && !self.critic_last_phase_reliable
            && self.layer_error_ema.len() == 0 {
            None
        } else {
            Some(
                ClState {
                    actor_hysteresis: save_machine(&self.actor_hysteresis),
                    critic_hysteresis: save_machine(&self.critic_hysteresis),
                    actor_plastic_step_counter: self.actor_plastic_step_counter,
                    critic_plastic_step_counter: self.critic_plastic_step_counter,
                    critic_frozen_steps: self.critic_frozen_steps,
                    actor_frozen_steps: self.actor_frozen_steps,
                    actor_fisher: save_records(&self.backend, &self.actor_fisher),
                    critic_fisher: save_records(&self.backend, &self.critic_fisher),
                    actor_last_phase_reliable: self.actor_last_phase_reliable,
                    critic_last_phase_reliable: self.critic_last_phase_reliable,
                    layer_error_ema: copy_scalars(&self.layer_error_ema),
                },
            )
        }
    }

    /// Takes a saved continual-learning state over.
    pub fn restore_cl_state(&mut self, saved: ClState)
        requires
            saved.well_formed(),
        ensures
            taken_over(*old(self), *final(self), saved),
    {
        self.actor_hysteresis = load_machine(&saved.actor_hysteresis);
        self.critic_hysteresis = load_machine(&saved.critic_hysteresis);
        self.actor_plastic_step_counter = saved.actor_plastic_step_counter;
        self.critic_plastic_step_counter = saved.critic_plastic_step_counter;
        self.critic_frozen_steps = saved.critic_frozen_steps;
        self.actor_frozen_steps = saved.actor_frozen_steps;
        self.actor_last_phase_reliable = saved.actor_last_phase_reliable;
        self.critic_last_phase_reliable = saved.critic_last_phase_reliable;
        if saved.layer_error_ema.len() > 0 {
            self.layer_error_ema = copy_scalars(&saved.layer_error_ema);
        }
        if saved.actor_fisher.len() > 0 {
            self.actor_fisher = load_records(&self.backend, &saved.actor_fisher);
        }
        if saved.critic_fisher.len() > 0 {
            self.critic_fisher = load_records(&self.backend, &saved.critic_fisher);
        }
    }
}

/// What a save file brings back, with the networks rebuilt from their weights.
pub struct SavedParts<L: LinAlg> {
    /// Configuration.
    pub config: PcActorCriticConfig,
    /// Actor.
    pub actor: PcActor<L>,
    /// Critic.
    pub critic: MlpCritic<L>,
    /// Polyak target, where its weights were saved.
    pub polyak_target: Option<PcActor<L>>,
    /// Champion, where its weights were saved.
    pub frozen_champion: Option<PcActor<L>>,
    /// Continual-learning state, where anything was saved of it.
    pub cl_state: Option<ClState>,
    /// Replay memory, where it was saved.
    pub replay_buffer: Option<ReplayBuffer>,
    /// Replay steps in which the TD error had to be clamped.
    pub replay_clamp_count: u64,
    /// Learning steps since the last hard rollback.
    pub steps_since_last_rollback_hard: u64,
    /// Learning steps that have to pass between two hard rollbacks.
    pub rollback_hard_cooldown_steps: u64,
}

/// An anchor after loading: none where it has no pull; otherwise the saved one, or a copy of
/// the actor where none was saved.
pub open spec fn anchor_restored<L: LinAlg>(
    slot: Option<PcActor<L>>,
    pull: Scalar,
    saved: Option<PcActor<L>>,
    actor: PcActor<L>,
) -> bool {
    if !Scalar::zero().below(pull) {
        slot is None
    } else {
        match saved {
            Some(p) => slot == Some(p),
            None => slot is Some && slot->0.alike(actor),
        }
    }
}

/// The continual-learning state after loading: the saved one, or a fresh one where none was
/// saved.
pub open spec fn learning_restored<L: LinAlg>(
    agent: PcActorCritic<L>,
    saved: Option<ClState>,
) -> bool {
    match saved {
        Some(c) => {
            &&& agent.actor_hysteresis == machine_of(c.actor_hysteresis)
            &&& agent.critic_hysteresis == machine_of(c.critic_hysteresis)
            &&& agent.actor_plastic_step_counter == c.actor_plastic_step_counter
            &&& agent.critic_plastic_step_counter == c.critic_plastic_step_counter
            &&& agent.critic_frozen_steps == c.critic_frozen_steps
            &&& agent.actor_frozen_steps == c.actor_frozen_steps
            &&& fisher_views(agent.actor_fisher@) == records_of(c.actor_fisher@)
            &&& fisher_views(agent.critic_fisher@) == records_of(c.critic_fisher@)
            &&& agent.actor_last_phase_reliable == c.actor_last_phase_reliable
            &&& agent.critic_last_phase_reliable == c.critic_last_phase_reliable
            &&& agent.layer_error_ema@ == if c.layer_error_ema@.len() > 0 {
                c.layer_error_ema@
            } else {
                fresh_error_ema(agent.config)
            }
        },
        None => {
            &&& agent.actor_hysteresis is None
            &&& agent.critic_hysteresis is None
            &&& agent.actor_plastic_step_counter == 0
            &&& agent.critic_plastic_step_counter == 0
            &&& agent.critic_frozen_steps == 0
            &&& agent.actor_frozen_steps == 0
            &&& agent.actor_fisher@.len() == 0
            &&& agent.critic_fisher@.len() == 0
            &&& !agent.actor_last_phase_reliable
            &&& !agent.critic_last_phase_reliable
            &&& agent.layer_error_ema@ == fresh_error_ema(agent.config)
        },
    }
}

/// The agent is the one that a save file describes, between episodes and without a history
/// of surprise and TD errors.
pub open spec fn restored_from<L: LinAlg>(agent: PcActorCritic<L>, parts: SavedParts<L>) -> bool {
    &&& agent.config == parts.config
    &&& agent.actor == parts.actor
    &&& agent.critic == parts.critic
    &&& anchor_restored(
        agent.polyak_target,
        parts.config.distillation_lambda_polyak,
        parts.polyak_target,
        parts.actor,
    )
    &&& anchor_restored(
        agent.frozen_champion,
        parts.config.distillation_lambda_frozen,
        parts.frozen_champion,
        parts.actor,
    )
    &&& learning_restored(agent, parts.cl_state)
    &&& replay_opt(agent.replay_buffer) == match parts.replay_buffer {
        Some(b) => Some(b@),
        None => fresh_replay(parts.config),
    }
    &&& agent.replay_clamp_count == parts.replay_clamp_count
    &&& agent.steps_since_last_rollback_hard == parts.steps_since_last_rollback_hard
    &&& agent.rollback_hard_cooldown_steps == parts.rollback_hard_cooldown_steps
    &&& agent.surprise_buffer@ == Seq::<Scalar>::empty()
    &&& agent.td_error_buffer@ == Seq::<Scalar>::empty()
    &&& agent.last_td_error == Scalar::zero()
    &&& agent.between_episodes()
    &&& agent.actor_decay_factors@ == decay_factors::<L>(
        parts.config.consolidation_decay,
        parts.config.actor.hidden_layers@.len(),
    )
    &&& agent.critic_decay_factors@ == decay_factors::<L>(
        parts.config.critic_consolidation_decay,
        parts.config.critic.hidden_layers@.len(),
    )
}

impl<L: LinAlg> PcActorCritic<L> {
    /// No episode is under way: no step waits to be learned from, and the eligibility trace is
    /// at its start.
    pub open spec fn between_episodes(self) -> bool {
        &&& self.state_prev is None
        &&& self.action_prev is None
        &&& self.infer_prev is None
        &&& self.valid_actions_prev is None
        &&& self.td_buffer@.len() == 0
        &&& self.actor_trace@ == zero_seq(trace_len(self.config))
    }
}

/// The saved weights of an anchor that may be absent.
pub open spec fn saved_anchor(w: Option<PcActorWeights>) -> Option<ActorWeights> {
    match w {
        Some(w) => Some(w.weights()),
        None => None,
    }
}

/// The weights of an anchor that may be absent.
pub open spec fn anchor_weights<L: LinAlg>(a: Option<PcActor<L>>) -> Option<ActorWeights> {
    match a {
        Some(a) => Some(a.weights()),
        None => None,
    }
}

/// The saved activation functions of an anchor that may be absent.
pub open spec fn saved_anchor_functions(w: Option<PcActorWeights>) -> Option<Seq<Activation>> {
    match w {
        Some(w) => Some(saved_activations(w.layers@)),
        None => None,
    }
}

/// The activation functions of an anchor that may be absent.
pub open spec fn anchor_functions<L: LinAlg>(a: Option<PcActor<L>>) -> Option<Seq<Activation>> {
    match a {
        Some(a) => Some(activations(a.layers@)),
        None => None,
    }
}

/// The save file holds everything about the agent that outlives a run.
pub open spec fn snapshot_of<L: LinAlg>(file: SaveFile, agent: PcActorCritic<L>) -> bool {
    &&& file.config.alike(agent.config)
    &&& file.actor_weights.weights() == agent.actor.weights()
    &&& saved_activations(file.actor_weights.layers@) == activations(agent.actor.layers@)
    &&& saved_layer_views(file.critic_weights.layers@) == layer_views(agent.critic.layers@)
    &&& saved_activations(file.critic_weights.layers@) == activations(agent.critic.layers@)
    &&& file.cl_state is None <==> agent.nothing_to_save()
    &&& file.cl_state matches Some(c) ==> c.well_formed() && c.describes(agent)
    &&& saved_anchor(file.polyak_target_weights) == anchor_weights(agent.polyak_target)
    &&& saved_anchor(file.frozen_champion_weights) == anchor_weights(agent.frozen_champion)
    &&& saved_anchor_functions(file.polyak_target_weights) == anchor_functions(
        agent.polyak_target,
    )
    &&& saved_anchor_functions(file.frozen_champion_weights) == anchor_functions(
        agent.frozen_champion,
    )
    &&& replay_opt(file.replay_buffer) == replay_opt(agent.replay_buffer)
    &&& file.replay_clamp_count == agent.replay_clamp_count
    &&& file.steps_since_last_rollback_hard == agent.steps_since_last_rollback_hard
    &&& file.rollback_hard_cooldown_steps == agent.rollback_hard_cooldown_steps
}

impl<L: LinAlg> PcActorCritic<L> {
    /// Everything about the agent that outlives a run.
    pub fn snapshot(&self, metadata: AgentMetadata) -> (r: SaveFile)
        ensures
            snapshot_of(r, *self),
            r.metadata == metadata,
    {
        SaveFile {
            metadata,
            config: self.config.copy(),
            actor_weights: self.actor.to_weights(&self.backend),
            critic_weights: self.critic.to_weights(&self.backend),
            cl_state: self.to_cl_state(),
            polyak_target_weights: match &self.polyak_target {
                Some(a) => Some(a.to_weights(&self.backend)),
                None => None,
            },
            frozen_champion_weights: match &self.frozen_champion {
                Some(a) => Some(a.to_weights(&self.backend)),
                None => None,
            },
            replay_buffer: match &self.replay_buffer {
                Some(b) => Some(b.copy()),
                None => None,
            },
            replay_clamp_count: self.replay_clamp_count,
            steps_since_last_rollback_hard: self.steps_since_last_rollback_hard,
            rollback_hard_cooldown_steps: self.rollback_hard_cooldown_steps,
        }
    }

    /// The agent that a save file describes.
    pub fn restored(parts: SavedParts<L>, rng: StdRng, backend: L) -> (r: Self)
        requires
            parts.cl_state matches Some(c) ==> c.well_formed(),
        ensures
            restored_from(r, parts),
            r.rng == rng,
            r.backend == backend,
    {
        let mut agent = Self::from_parts(parts.config, parts.actor, parts.critic, rng, backend);
        if Scalar::zero().lt(agent.config.distillation_lambda_polyak) {
            match parts.polyak_target {
                Some(a) => {
                    agent.polyak_target = Some(a);
                },
                None => {},
            }
        }
        if Scalar::zero().lt(agent.config.distillation_lambda_frozen) {
            match parts.frozen_champion {
                Some(a) => {
                    agent.frozen_champion = Some(a);
                },
                None => {},
            }
        }
        match parts.cl_state {
            Some(c) => {
                let ghost base = agent;
                agent.restore_cl_state(c);
                proof {
                    assert(fisher_views(base.actor_fisher@) =~= Seq::empty());
                    assert(fisher_views(base.critic_fisher@) =~= Seq::empty());
                    assert(fisher_views(agent.actor_fisher@) =~= records_of(c.actor_fisher@));
                    assert(fisher_views(agent.critic_fisher@) =~= records_of(c.critic_fisher@));
                }
            },
            None => {},
        }
        agent.replay_buffer = match parts.replay_buffer {
            Some(b) => Some(b),
            None => Self::build_replay(&agent.config),
        };
        agent.replay_clamp_count = parts.replay_clamp_count;
        agent.steps_since_last_rollback_hard = parts.steps_since_last_rollback_hard;
        agent.rollback_hard_cooldown_steps = parts.rollback_hard_cooldown_steps;
        agent
    }
}

/// Saving an agent and loading it again gives the agent back: configuration, weights, anchors,
/// continual-learning state, replay memory and counts. The networks are rebuilt from the saved
/// weights; the agent has an anchor exactly where it has a pull, and neither replay memory nor
/// smoothed errors are missing where the configuration asks for them. What was going on in an
/// episode is not saved.
pub proof fn saved_agent_comes_back<L: LinAlg>(
    agent: PcActorCritic<L>,
    file: SaveFile,
    parts: SavedParts<L>,
    loaded: PcActorCritic<L>,
)
    requires
        snapshot_of(file, agent),
        parts.config.alike(file.config),
        parts.actor.weights() == file.actor_weights.weights(),
        layer_views(parts.critic.layers@) == saved_layer_views(file.critic_weights.layers@),
        anchor_weights(parts.polyak_target) == saved_anchor(file.polyak_target_weights),
        anchor_weights(parts.frozen_champion) == saved_anchor(file.frozen_champion_weights),
        parts.cl_state == file.cl_state,
        replay_opt(parts.replay_buffer) == replay_opt(file.replay_buffer),
        parts.replay_clamp_count == file.replay_clamp_count,
        parts.steps_since_last_rollback_hard == file.steps_since_last_rollback_hard,
        parts.rollback_hard_cooldown_steps == file.rollback_hard_cooldown_steps,
        restored_from(loaded, parts),
        agent.polyak_target is Some <==> Scalar::zero().below(
            agent.config.distillation_lambda_polyak,
        ),
        agent.frozen_champion is Some <==> Scalar::zero().below(
            agent.config.distillation_lambda_frozen,
        ),
        agent.replay_buffer is None ==> agent.config.replay_training_capacity == 0,
        agent.layer_error_ema@.len() == 0 ==> fresh_error_ema(agent.config).len() == 0,
    ensures
        loaded.between_episodes(),
        loaded.config.alike(agent.config),
        loaded.actor.weights() == agent.actor.weights(),
        layer_views(loaded.critic.layers@) == layer_views(agent.critic.layers@),
        anchor_weights(loaded.polyak_target) == anchor_weights(agent.polyak_target),
        anchor_weights(loaded.frozen_champion) == anchor_weights(agent.frozen_champion),
        same_learning_state(loaded, agent),
        replay_opt(loaded.replay_buffer) == replay_opt(agent.replay_buffer),
        loaded.replay_clamp_count == agent.replay_clamp_count,
        loaded.steps_since_last_rollback_hard == agent.steps_since_last_rollback_hard,
        loaded.rollback_hard_cooldown_steps == agent.rollback_hard_cooldown_steps,
{
    assert(fresh_error_ema(loaded.config) =~= fresh_error_ema(agent.config));
    if agent.nothing_to_save() {
        assert(fisher_views(loaded.actor_fisher@) =~= fisher_views(agent.actor_fisher@));
        assert(fisher_views(loaded.critic_fisher@) =~= fisher_views(agent.critic_fisher@));
        assert(loaded.layer_error_ema@ =~= agent.layer_error_ema@);
    } else {
        assert(loaded.layer_error_ema@ =~= agent.layer_error_ema@);
    }
}

/// What is saved of an agent and taken over by another is the same continual-learning state,
/// is saved again unchanged, and leaves networks and configuration of the other alone. Where
/// nothing was saved of records or smoothed errors, the other has none either.
pub proof fn learning_state_survives_saving<L: LinAlg>(
    agent: PcActorCritic<L>,
    saved: ClState,
    fresh: PcActorCritic<L>,
    restored: PcActorCritic<L>,
)
    requires
        saved.describes(agent),
        agent.actor_fisher@.len() == 0 ==> fresh.actor_fisher@.len() == 0,
        agent.critic_fisher@.len() == 0 ==> fresh.critic_fisher@.len() == 0,
        agent.layer_error_ema@.len() == 0 ==> fresh.layer_error_ema@.len() == 0,
        taken_over(fresh, restored, saved),
    ensures
        same_learning_state(restored, agent),
        saved.describes(restored),
        restored.nothing_to_save() <==> agent.nothing_to_save(),
        restored.actor == fresh.actor,
        restored.critic == fresh.critic,
        restored.config == fresh.config,
{
    assert(records_of(saved.actor_fisher@).len() == saved.actor_fisher@.len());
    assert(records_of(saved.critic_fisher@).len() == saved.critic_fisher@.len());
    assert(fisher_views(agent.actor_fisher@).len() == agent.actor_fisher@.len());
    assert(fisher_views(agent.critic_fisher@).len() == agent.critic_fisher@.len());
    assert(fisher_views(restored.actor_fisher@).len() == restored.actor_fisher@.len());
    assert(fisher_views(restored.critic_fisher@).len() == restored.critic_fisher@.len());
    if agent.actor_fisher@.len() == 0 {
        assert(fisher_views(restored.actor_fisher@) =~= fisher_views(agent.actor_fisher@));
    }
    if agent.critic_fisher@.len() == 0 {
        assert(fisher_views(restored.critic_fisher@) =~= fisher_views(agent.critic_fisher@));
    }
    assert(restored.layer_error_ema@ =~= agent.layer_error_ema@);
}

/// Where nothing was saved, nothing is missing: an agent built afresh has the same
/// continual-learning state as one with nothing to save.
pub proof fn nothing_saved_nothing_lost<L: LinAlg>(
    agent: PcActorCritic<L>,
    fresh: PcActorCritic<L>,
)
    requires
        agent.nothing_to_save(),
        fresh.at_baseline(),
        fresh.unequipped(),
        fresh.layer_error_ema@.len() == 0,
    ensures
        same_learning_state(fresh, agent),
{
    assert(fisher_views(fresh.actor_fisher@) =~= fisher_views(agent.actor_fisher@));
    assert(fisher_views(fresh.critic_fisher@) =~= fisher_views(agent.critic_fisher@));
    assert(fresh.layer_error_ema@ =~= agent.layer_error_ema@);
}

} // verus!
