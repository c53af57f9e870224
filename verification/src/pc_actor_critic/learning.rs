//! One learning step, between the calls into the networks: what the critic is moved toward,
//! what the actor is moved along, and what is kept of it afterwards.

use vstd::prelude::*;

use crate::elementwise::clip;
use crate::linalg::{zero_seq, LinAlg};
use crate::networks::{copy_layers, layer_views, InferResult, Layer};
use crate::pc_actor_critic::agent::PcActorCritic;
use crate::pc_actor_critic::discounting::{discounted_head, discounted_sum};
use crate::pc_actor_critic::fisher::{
    bias_importance_is_the_smoothed_square, fisher_views, fishers_fit,
    importance_is_the_smoothed_square,
};
use crate::pc_actor_critic::gradients::{absorbed_all, chain_ready, layer_gradient};
use crate::pc_actor_critic::policy::{
    agreeing_policies_do_not_pull, all_below, cancels, compute_kl_gradient, direction,
    direction_reads, entropy_lowers_open_actions, kl_gradient, log_policy, meant_direction,
    multiplied, multiply, nudge, nudge_reads, nudged, one_less, picked, policy_direction,
    probabilities, reversed, reversed_delta, spread, spread_out, tempered,
    tempering_divides_by_the_temperature, trace_entry_reads, trace_error, trace_on, traced, weigh,
    weighing_multiplies_open_actions, weighted, MIN_PROBABILITY_BITS,
};
use crate::pc_actor_critic::replay::ReplayTransition;
use crate::pc_actor_critic::scaling::LearnMode;
use crate::reading::{
    difference_shows, near, product_shows, products_near, reads, reads_order, reads_quotients,
    sized, sum_shows, Reading,
};
use crate::scalar::Scalar;

verus! {

/// What one step is learned from.
pub struct LearnStep<'a, L: LinAlg> {
    /// Observation.
    pub state: &'a [Scalar],
    /// Inference at the observation.
    pub infer: &'a InferResult<L>,
    /// Action taken.
    pub action: usize,
    /// Actions that were open.
    pub valid_actions: &'a [usize],
    /// Reward received, or the return of several steps.
    pub reward: Scalar,
    /// Observation that followed.
    pub next_state: &'a [Scalar],
    /// Inference at the observation that followed.
    pub next_infer: &'a InferResult<L>,
    /// Whether the episode ended there.
    pub done: bool,
    /// Discount of the value of the observation that followed.
    pub gamma: Scalar,
    /// Value of the observation, where it was computed beforehand.
    pub pre_v_s: Option<Scalar>,
    /// TD error, where it was computed beforehand.
    pub pre_td_error: Option<Scalar>,
    /// Where the step comes from.
    pub mode: LearnMode,
}

/// How the critic is to be updated.
#[derive(Clone, Copy, Debug)]
pub struct CriticUpdate {
    /// TD error.
    pub td_error: Scalar,
    /// Value that the critic should have given.
    pub target: Scalar,
    /// Learning scale.
    pub scale: Scalar,
}

/// How the actor is to be updated.
pub struct ActorUpdate<L: LinAlg> {
    /// TD error of the step.
    pub td_error: Scalar,
    /// Error at the output.
    pub delta: Vec<Scalar>,
    /// Learning scale.
    pub scale: Scalar,
    /// Learning decay per hidden layer.
    pub decay: Vec<Scalar>,
    /// The layers before the update, where they are needed to draw it back.
    pub before: Option<Vec<Layer<L>>>,
}

impl<'a, L: LinAlg> LearnStep<'a, L> {
    /// A step of the running episode.
    pub fn online(
        state: &'a [Scalar],
        infer: &'a InferResult<L>,
        action: usize,
        valid_actions: &'a [usize],
        reward: Scalar,
        next_state: &'a [Scalar],
        next_infer: &'a InferResult<L>,
        done: bool,
        gamma: Scalar,
    ) -> (r: Self)
        ensures
            r == (LearnStep {
                state,
                infer,
                action,
                valid_actions,
                reward,
                next_state,
                next_infer,
                done,
                gamma,
                pre_v_s: None,
                pre_td_error: None,
                mode: LearnMode::Online,
            }),
    {
        LearnStep {
            state,
            infer,
            action,
            valid_actions,
            reward,
            next_state,
            next_infer,
            done,
            gamma,
            pre_v_s: None,
            pre_td_error: None,
            mode: LearnMode::Online,
        }
    }

    /// A step out of the replay memory, with its value and TD error computed beforehand.
    pub fn replayed(
        transition: &'a ReplayTransition,
        infer: &'a InferResult<L>,
        action: usize,
        valid_actions: &'a [usize],
        next_infer: &'a InferResult<L>,
        gamma: Scalar,
        v_s: Scalar,
        td_error: Scalar,
    ) -> (r: Self)
        ensures
            r.state@ == transition.state@,
            r.infer == infer,
            r.action == action,
            r.valid_actions == valid_actions,
            r.reward == transition.reward,
            r.next_state@ == transition.next_state@,
            r.next_infer == next_infer,
            r.done == transition.done,
            r.gamma == gamma,
            r.pre_v_s == Some(v_s),
            r.pre_td_error == Some(td_error),
            r.mode == LearnMode::Replay,
    {
        LearnStep {
            state: transition.state.as_slice(),
            infer,
            action,
            valid_actions,
            reward: transition.reward,
            next_state: transition.next_state.as_slice(),
            next_infer,
            done: transition.done,
            gamma,
            pre_v_s: Some(v_s),
            pre_td_error: Some(td_error),
            mode: LearnMode::Replay,
        }
    }

    /// The value of the observation, given what the critic says of it.
    pub open spec fn value(self, forwarded: Scalar) -> Scalar {
        match self.pre_v_s {
            Some(v) => v,
            None => forwarded,
        }
    }

    /// What the critic should have said of the observation.
    pub open spec fn target(self, v_s: Scalar, v_next: Scalar) -> Scalar {
        match self.pre_td_error {
            Some(e) => L::plus(self.value(v_s), e),
            None => L::plus(
                self.reward,
                if self.done {
                    Scalar::zero()
                } else {
                    L::times(self.gamma, v_next)
                },
            ),
        }
    }

    /// The TD error of the step.
    pub open spec fn td_error(self, v_s: Scalar, v_next: Scalar) -> Scalar {
        match self.pre_td_error {
            Some(e) => e,
            None => L::minus(self.target(v_s, v_next), self.value(v_s)),
        }
    }

    /// The actor's output at the observation.
    pub open spec fn logits(self) -> Seq<Scalar> {
        L::seq(self.infer.y_conv)
    }

    /// The action taken and the open ones are all among the actor's outputs.
    pub open spec fn actions_exist(self) -> bool {
        self.action < self.logits().len() && all_below(self.valid_actions@, self.logits().len())
    }
}

/// The critic's input: the observation followed by the actor's hidden activations.
pub fn critic_input<L: LinAlg>(backend: &L, state: &[Scalar], latent: &L::Vector) -> (r: Vec<
    Scalar,
>)
    ensures
        r@ == state@ + L::seq(*latent),
{
    let tail = backend.vec_to_vec(latent);
    let mut out: Vec<Scalar> = Vec::new();
    let mut i: usize = 0;
    while i < state.len()
        invariant
            i <= state@.len(),
            out@ == state@.take(i as int),
        decreases state@.len() - i,
    {
        out.push(state[i]);
        assert(out@ =~= state@.take(i + 1));
        i = i + 1;
    }
    let mut k: usize = 0;
    while k < tail.len()
        invariant
            k <= tail@.len(),
            out@ == state@ + tail@.take(k as int),
        decreases tail@.len() - k,
    {
        out.push(tail[k]);
        assert(out@ =~= state@ + tail@.take(k + 1));
        k = k + 1;
    }
    assert(tail@.take(tail@.len() as int) =~= tail@);
    out
}

/// The count of learning steps after one more; replayed steps are not counted.
pub open spec fn ticked(steps: u64, mode: LearnMode) -> u64 {
    if mode == LearnMode::Online && steps < u64::MAX {
        (steps + 1) as u64
    } else {
        steps
    }
}

/// The count after `n` learning steps of the running episode.
pub open spec fn ticked_times(steps: u64, n: nat) -> u64
    decreases n,
{
    if n == 0 {
        steps
    } else {
        ticked(ticked_times(steps, (n - 1) as nat), LearnMode::Online)
    }
}

/// An update of the actor was planned: the policy gradient with both pulls, at the step's
/// learning scale and decay. The eligibility trace was carried on and the importance records
/// took the step in; nothing else changed. A copy of the layers is kept where the update is to
/// be drawn back.
pub open spec fn actor_planned<L: LinAlg>(
    before: PcActorCritic<L>,
    after: PcActorCritic<L>,
    step: LearnStep<L>,
    td_error: Scalar,
    polyak_logits: Seq<Scalar>,
    champion_logits: Seq<Scalar>,
    update: ActorUpdate<L>,
) -> bool {
    &&& update.td_error == td_error
    &&& update.delta@ == before.distilled(
        before.policy_gradient(step, td_error),
        step,
        polyak_logits,
        champion_logits,
    )
    &&& update.delta@.len() == step.logits().len()
    &&& update.scale == before.actor_scale_in(step.infer.surprise_score, step.mode)
    &&& update.decay@ == before.actor_decay()
    &&& update.before is Some <==> before.consolidates(step.mode)
    &&& update.before matches Some(b) ==> layer_views(b@) == layer_views(before.actor.layers@)
    &&& after.actor_trace@ == before.trace_after(step)
    &&& fisher_views(after.actor_fisher@) == if before.consolidates(step.mode) {
        absorbed_all(
            fisher_views(before.actor_fisher@),
            before.actor,
            *step.infer,
            before.importance_error(step, update.delta@),
            before.config.fisher_ema_beta,
        )
    } else {
        fisher_views(before.actor_fisher@)
    }
    &&& after == (PcActorCritic {
        actor_trace: after.actor_trace,
        actor_fisher: after.actor_fisher,
        ..before
    })
}

impl<L: LinAlg> PcActorCritic<L> {
    /// The probabilities of the open actions under the actor's output.
    pub open spec fn policy(self, logits: Seq<Scalar>, valid: Seq<usize>) -> Seq<Scalar> {
        L::softmax(tempered::<L>(logits, self.actor.config.temperature), valid)
    }

    /// The eligibility trace after a learning step.
    pub open spec fn trace_after(self, step: LearnStep<L>) -> Seq<Scalar> {
        if step.mode == LearnMode::Online && self.config.gae_lambda is Some {
            traced::<L>(
                self.actor_trace@,
                L::times(self.config.gamma, self.config.gae_lambda->0),
                direction::<L>(
                    self.policy(step.logits(), step.valid_actions@),
                    step.valid_actions@,
                    step.action,
                ),
            )
        } else {
            self.actor_trace@
        }
    }

    /// The policy gradient of a step before the entropy term: along the trace in the running
    /// episode where there is one, along the step's own direction otherwise.
    pub open spec fn raw_gradient(self, step: LearnStep<L>, td_error: Scalar) -> Seq<Scalar> {
        let d = direction::<L>(
            self.policy(step.logits(), step.valid_actions@),
            step.valid_actions@,
            step.action,
        );
        if self.config.gae_lambda is None {
            weighted::<L>(d, step.valid_actions@, td_error)
        } else if step.mode == LearnMode::Online {
            multiplied::<L>(td_error, self.trace_after(step))
        } else {
            multiplied::<L>(td_error, d)
        }
    }

    /// The policy gradient of a step.
    pub open spec fn policy_gradient(self, step: LearnStep<L>, td_error: Scalar) -> Seq<Scalar> {
        spread_out::<L>(
            self.raw_gradient(step, td_error),
            self.policy(step.logits(), step.valid_actions@),
            step.valid_actions@,
            self.config.entropy_coeff,
        )
    }

    /// The actor is drawn toward its Polyak target: there is one with a positive pull, the
    /// actor is plastic, and there is a choice of actions.
    pub open spec fn drawn_to_polyak(self, choices: nat) -> bool {
        &&& !self.actor_plasticity().is_frozen()
        &&& choices > 1
        &&& Scalar::zero().below(self.config.distillation_lambda_polyak)
        &&& self.polyak_target is Some
    }

    /// The actor is drawn toward the champion.
    pub open spec fn drawn_to_champion(self, choices: nat) -> bool {
        &&& !self.actor_plasticity().is_frozen()
        &&& choices > 1
        &&& Scalar::zero().below(self.config.distillation_lambda_frozen)
        &&& self.frozen_champion is Some
    }

    /// The error at the actor's output: the policy gradient and both pulls.
    pub open spec fn distilled(
        self,
        gradient: Seq<Scalar>,
        step: LearnStep<L>,
        polyak_logits: Seq<Scalar>,
        champion_logits: Seq<Scalar>,
    ) -> Seq<Scalar> {
        let choices = step.valid_actions@.len();
        let t = self.actor.config.temperature;
        let one = if self.drawn_to_polyak(choices) {
            nudged::<L>(
                gradient,
                self.config.distillation_lambda_polyak,
                kl_gradient::<L>(step.logits(), polyak_logits, step.valid_actions@, t),
            )
        } else {
            gradient
        };
        if self.drawn_to_champion(choices) {
            nudged::<L>(
                one,
                self.config.distillation_lambda_frozen,
                kl_gradient::<L>(step.logits(), champion_logits, step.valid_actions@, t),
            )
        } else {
            one
        }
    }

    /// The step adds to the importance records and is drawn back by them.
    pub open spec fn consolidates(self, mode: LearnMode) -> bool {
        &&& mode == LearnMode::Online
        &&& Scalar::zero().below(self.config.ewc_lambda)
        &&& self.actor_fisher@.len() > 0
    }

    /// The error that the importance records are fed with.
    pub open spec fn importance_error(self, step: LearnStep<L>, delta: Seq<Scalar>) -> Seq<Scalar> {
        if self.config.logits_reversal {
            one_less::<L>(
                L::softmax(
                    reversed::<L>(step.logits(), self.actor.config.temperature),
                    step.valid_actions@,
                ),
                step.action as int,
            )
        } else {
            delta
        }
    }

    /// Counts the step and says how the critic is to be updated; nothing is to be learned
    /// from a TD error that is not finite. `v_s` and `v_next` are what the critic says of the
    /// observation and of the one that followed, where the step does not bring them along.
    pub fn plan_critic_update(&mut self, step: &LearnStep<L>, v_s: Scalar, v_next: Scalar) -> (r:
        Option<CriticUpdate>)
        ensures
            *final(self) == (PcActorCritic {
                steps_since_last_rollback_hard: ticked(
                    old(self).steps_since_last_rollback_hard,
                    step.mode,
                ),
                ..*old(self)
            }),
            r is Some <==> step.td_error(v_s, v_next).finite(),
            r matches Some(u) ==> {
                &&& u.td_error == step.td_error(v_s, v_next)
                &&& u.target == step.target(v_s, v_next)
                &&& u.scale == old(self).critic_scale_in(u.td_error.magnitude_of(), step.mode)
            },
    {
        if step.mode == LearnMode::Online && self.steps_since_last_rollback_hard < u64::MAX {
            self.steps_since_last_rollback_hard = self.steps_since_last_rollback_hard + 1;
        }
        let value = match step.pre_v_s {
            Some(v) => v,
            None => v_s,
        };
        let (td_error, target) = match step.pre_td_error {
            Some(e) => (e, L::scalar_add(value, e)),
            None => {
                let future = if step.done {
                    Scalar::zero()
                } else {
                    L::scalar_mul(step.gamma, v_next)
                };
                let target = L::scalar_add(step.reward, future);
                (L::scalar_sub(target, value), target)
            },
        };
        if td_error.is_finite() {
            let scale = self.effective_critic_scale_for_mode(td_error.abs(), step.mode);
            Some(CriticUpdate { td_error, target, scale })
        } else {
            None
        }
    }

    /// The policy gradient of a step; carries the eligibility trace on where the step belongs
    /// to the running episode.
    pub fn step_gradient(&mut self, step: &LearnStep<L>, td_error: Scalar) -> (r: Vec<Scalar>)
        requires
            step.actions_exist(),
            step.mode == LearnMode::Online && old(self).config.gae_lambda is Some ==> old(
                self,
            ).actor_trace@.len() == step.logits().len(),
        ensures
            r@ == old(self).policy_gradient(*step, td_error),
            r@.len() == step.logits().len(),
            final(self).actor_trace@ == old(self).trace_after(*step),
            *final(self) == (PcActorCritic { actor_trace: final(self).actor_trace, ..*old(self) }),
    {
        let logits = self.backend.vec_to_vec(&step.infer.y_conv);
        let pi = probabilities(
            &self.backend,
            logits.as_slice(),
            step.valid_actions,
            self.actor.config.temperature,
        );
        let mut d = policy_direction::<L>(pi.as_slice(), step.valid_actions, step.action);
        match self.config.gae_lambda {
            Some(lambda) => {
                if step.mode == LearnMode::Online {
                    let decay = L::scalar_mul(self.config.gamma, lambda);
                    trace_on::<L>(&mut self.actor_trace, decay, d.as_slice());
                    d = multiply::<L>(td_error, self.actor_trace.as_slice());
                } else {
                    d = multiply::<L>(td_error, d.as_slice());
                }
            },
            None => {
                weigh::<L>(&mut d, step.valid_actions, td_error);
            },
        }
        spread::<L>(&mut d, pi.as_slice(), step.valid_actions, self.config.entropy_coeff);
        d
    }

    /// Whether the actor is drawn toward its Polyak target, whose output is then needed.
    pub fn needs_polyak_logits(&self, valid_actions: &[usize]) -> (r: bool)
        ensures
            r == self.drawn_to_polyak(valid_actions@.len()),
    {
        !self.is_actor_frozen() && valid_actions.len() > 1 && Scalar::zero().lt(
            self.config.distillation_lambda_polyak,
        ) && self.polyak_target.is_some()
    }

    /// Whether the actor is drawn toward the champion, whose output is then needed.
    pub fn needs_champion_logits(&self, valid_actions: &[usize]) -> (r: bool)
        ensures
            r == self.drawn_to_champion(valid_actions@.len()),
    {
        !self.is_actor_frozen() && valid_actions.len() > 1 && Scalar::zero().lt(
            self.config.distillation_lambda_frozen,
        ) && self.frozen_champion.is_some()
    }

    fn distill(
        &self,
        gradient: Vec<Scalar>,
        step: &LearnStep<L>,
        polyak_logits: &[Scalar],
        champion_logits: &[Scalar],
    ) -> (r: Vec<Scalar>)
        requires
            step.actions_exist(),
            gradient@.len() == step.logits().len(),
            self.drawn_to_polyak(step.valid_actions@.len()) ==> all_below(
                step.valid_actions@,
                polyak_logits@.len(),
            ),
            self.drawn_to_champion(step.valid_actions@.len()) ==> all_below(
                step.valid_actions@,
                champion_logits@.len(),
            ),
        ensures
            r@ == self.distilled(gradient@, *step, polyak_logits@, champion_logits@),
            r@.len() == gradient@.len(),
    {
        let mut d = gradient;
        let polyak = self.needs_polyak_logits(step.valid_actions);
        let champion = self.needs_champion_logits(step.valid_actions);
        let live = self.backend.vec_to_vec(&step.infer.y_conv);
        if polyak {
            let g = compute_kl_gradient::<L>(
                live.as_slice(),
                polyak_logits,
                step.valid_actions,
                self.actor.config.temperature,
            );
            nudge::<L>(&mut d, self.config.distillation_lambda_polyak, g.as_slice());
        }
        if champion {
            let g = compute_kl_gradient::<L>(
                live.as_slice(),
                champion_logits,
                step.valid_actions,
                self.actor.config.temperature,
            );
            nudge::<L>(&mut d, self.config.distillation_lambda_frozen, g.as_slice());
        }
        d
    }

    /// Says how the actor is to be updated along with the critic, carries the eligibility trace
    /// on, and lets the importance records take the step in. The outputs of the Polyak target
    /// and of the champion at the observation are read only where the actor is drawn toward
    /// them.
    pub fn plan_actor_update(
        &mut self,
        step: &LearnStep<L>,
        critic: &CriticUpdate,
        polyak_logits: &[Scalar],
        champion_logits: &[Scalar],
    ) -> (r: ActorUpdate<L>)
        requires
            step.actions_exist(),
            step.mode == LearnMode::Online && old(self).config.gae_lambda is Some ==> old(
                self,
            ).actor_trace@.len() == step.logits().len(),
            old(self).drawn_to_polyak(step.valid_actions@.len()) ==> all_below(
                step.valid_actions@,
                polyak_logits@.len(),
            ),
            old(self).drawn_to_champion(step.valid_actions@.len()) ==> all_below(
                step.valid_actions@,
                champion_logits@.len(),
            ),
            old(self).consolidates(step.mode) ==> {
                &&& chain_ready(old(self).actor, *step.infer)
                &&& fishers_fit(
                    fisher_views(old(self).actor_fisher@),
                    layer_views(old(self).actor.layers@),
                )
            },
        ensures
            actor_planned(
                *old(self),
                *final(self),
                *step,
                critic.td_error,
                polyak_logits@,
                champion_logits@,
                r,
            ),
    {
        let scale = self.effective_actor_scale_for_mode(step.infer.surprise_score, step.mode);
        let decay = self.effective_actor_decay();
        let td_error = critic.td_error;
        let gradient = self.step_gradient(step, td_error);
        let delta = self.distill(gradient, step, polyak_logits, champion_logits);
        let consolidates = step.mode == LearnMode::Online && Scalar::zero().lt(
            self.config.ewc_lambda,
        ) && self.actor_fisher.len() > 0;
        if consolidates {
            if self.config.logits_reversal {
                let logits = self.backend.vec_to_vec(&step.infer.y_conv);
                let error = reversed_delta(
                    &self.backend,
                    logits.as_slice(),
                    step.valid_actions,
                    step.action,
                    self.actor.config.temperature,
                );
                self.accumulate_actor_fisher_ema(error.as_slice(), step.infer);
            } else {
                self.accumulate_actor_fisher_ema(delta.as_slice(), step.infer);
            }
            let before = copy_layers(&self.actor.layers);
            ActorUpdate { td_error, delta, scale, decay, before: Some(before) }
        } else {
            ActorUpdate { td_error, delta, scale, decay, before: None }
        }
    }
}

/// What the critic should have said of the observation is the reward plus, unless the episode
/// ended, the discounted value of the observation that followed; the TD error is how much more
/// that is than what it did say. Reward and discount may be known up to `e` and `f` themselves.
pub proof fn target_is_reward_and_discounted_value<L: LinAlg>(
    rd: Reading,
    step: LearnStep<L>,
    v_s: Scalar,
    v_next: Scalar,
    r: real,
    d: real,
    e: real,
    f: real,
    bound: real,
)
    requires
        reads::<L>(rd),
        step.pre_td_error is None,
        rd.shows(step.reward, r, e),
        rd.shows(step.gamma, d, f),
        0 as real <= d <= 1 as real,
        sized(r, bound),
        v_next.finite(),
        sized(rd.of(v_next), bound),
        step.value(v_s).finite(),
        sized(rd.of(step.value(v_s)), bound),
        e >= 0 as real,
        f >= 0 as real,
        bound >= 0 as real,
        bound + bound + bound + e + f * bound + rd.slack + rd.slack <= rd.top,
    ensures
        ({
            let next = if step.done {
                0 as real
            } else {
                d * rd.of(v_next)
            };
            let off = e + f * bound + rd.slack + rd.slack;
            &&& rd.shows(step.target(v_s, v_next), r + next, off)
            &&& rd.shows(
                step.td_error(v_s, v_next),
                r + next - rd.of(step.value(v_s)),
                off + rd.slack,
            )
        }),
{
    let s = rd.slack;
    let v = rd.of(v_next);
    let off = e + f * bound + s + s;
    assert(f * bound >= 0 as real && sized(d * v, bound) && f * (bound + 0 as real) + (1 as real)
        * (0 as real) == f * bound && (1 as real) * bound == bound) by (nonlinear_arith)
        requires
            f >= 0 as real,
            bound >= 0 as real,
            0 as real <= d <= 1 as real,
            sized(v, bound),
    ;
    if step.done {
        sum_shows::<L>(rd, step.reward, Scalar::zero(), r, 0 as real, e, 0 as real);
        difference_shows::<L>(
            rd,
            step.target(v_s, v_next),
            step.value(v_s),
            r,
            rd.of(step.value(v_s)),
            off,
            0 as real,
        );
    } else {
        product_shows::<L>(
            rd,
            step.gamma,
            v_next,
            d,
            v,
            f,
            0 as real,
            1 as real,
            bound,
        );
        sum_shows::<L>(
            rd,
            step.reward,
            L::times(step.gamma, v_next),
            r,
            d * v,
            e,
            f * bound + s,
        );
        difference_shows::<L>(
            rd,
            step.target(v_s, v_next),
            step.value(v_s),
            r + d * v,
            rd.of(step.value(v_s)),
            off,
            0 as real,
        );
    }
}

/// The critic is moved toward the value by which the actor's TD error is measured: what was
/// said, plus the TD error, is the target.
pub proof fn target_is_value_and_error<L: LinAlg>(
    rd: Reading,
    step: LearnStep<L>,
    v_s: Scalar,
    v_next: Scalar,
    error: Scalar,
)
    requires
        reads::<L>(rd),
        step.pre_td_error == Some(error),
        error.finite(),
        step.value(v_s).finite(),
        sized(rd.of(step.value(v_s)) + rd.of(error), rd.top),
    ensures
        step.td_error(v_s, v_next) == error,
        rd.shows(
            step.target(v_s, v_next),
            rd.of(step.value(v_s)) + rd.of(error),
            rd.slack,
        ),
{
}

/// The direction of a step in one entry, as the agent's policy has it.
pub open spec fn step_direction<L: LinAlg>(
    rd: Reading,
    agent: PcActorCritic<L>,
    step: LearnStep<L>,
    i: int,
) -> real {
    meant_direction(
        rd,
        agent.policy(step.logits(), step.valid_actions@),
        step.valid_actions@,
        step.action,
        i,
    )
}

/// The agent keeps a trace, and a step of the running episode can be taken into it: discount and
/// trace decay are between zero and one, and so are the probabilities of the actions.
pub open spec fn trace_is_kept<L: LinAlg>(
    rd: Reading,
    agent: PcActorCritic<L>,
    step: LearnStep<L>,
) -> bool {
    let pi = agent.policy(step.logits(), step.valid_actions@);
    &&& step.mode == LearnMode::Online
    &&& agent.config.gamma.finite()
    &&& 0 as real <= rd.of(agent.config.gamma) <= 1 as real
    &&& agent.config.gae_lambda matches Some(l) && l.finite() && 0 as real <= rd.of(l)
        <= 1 as real
    &&& step.action < agent.actor_trace@.len() <= usize::MAX
    &&& pi.len() == agent.actor_trace@.len()
    &&& forall|i: int|
        0 <= i < pi.len() ==> (#[trigger] pi[i]).finite() && 0 as real <= rd.of(pi[i])
            <= 1 as real
}

/// A step of the running episode fades every entry of the eligibility trace by discount times
/// trace decay and adds the step's direction, wherever the result is within the clip.
pub proof fn trace_fades_and_takes_the_step_in<L: LinAlg>(
    rd: Reading,
    agent: PcActorCritic<L>,
    step: LearnStep<L>,
    i: int,
    x: real,
    e: real,
)
    requires
        reads::<L>(rd),
        reads_order(rd),
        trace_is_kept(rd, agent, step),
        0 <= i < agent.actor_trace@.len(),
        rd.shows(agent.actor_trace@[i], x, e),
        e >= 0 as real,
        sized(rd.of(agent.actor_trace@[i]), rd.of(clip())),
        sized(
            rd.of(agent.config.gamma) * rd.of(agent.config.gae_lambda->0) * x + step_direction(
                rd,
                agent,
                step,
                i,
            ),
            rd.of(clip()) - trace_error(rd, e, rd.slack, rd.slack),
        ),
        rd.of(clip()) + rd.of(clip()) * rd.slack + rd.slack + rd.slack + e + 1 as real <= rd.top,
    ensures
        agent.trace_after(step).len() == agent.actor_trace@.len(),
        rd.shows(
            agent.trace_after(step)[i],
            rd.of(agent.config.gamma) * rd.of(agent.config.gae_lambda->0) * x + step_direction(
                rd,
                agent,
                step,
                i,
            ),
            trace_error(rd, e, rd.slack, rd.slack),
        ),
        sized(rd.of(agent.trace_after(step)[i]), rd.of(clip())),
{
    let g = rd.of(agent.config.gamma);
    let l = rd.of(agent.config.gae_lambda->0);
    let c = rd.of(clip());
    let s = rd.slack;
    let pi = agent.policy(step.logits(), step.valid_actions@);
    assert(c >= 0 as real);
    assert(0 as real <= g * l <= 1 as real && c * s >= 0 as real) by (nonlinear_arith)
        requires
            0 as real <= g <= 1 as real,
            0 as real <= l <= 1 as real,
            c >= 0 as real,
            s >= 0 as real,
    ;
    let decay = L::times(agent.config.gamma, agent.config.gae_lambda->0);
    assert(rd.shows(decay, g * l, s));
    assert(pi[i].finite());
    direction_reads::<L>(rd, pi, step.valid_actions@, step.action, i);
    trace_entry_reads::<L>(
        rd,
        agent.actor_trace@,
        decay,
        direction::<L>(pi, step.valid_actions@, step.action),
        i,
        x,
        g * l,
        step_direction(rd, agent, step, i),
        e,
        s,
        s,
    );
}

/// Directions with the latest first, and what the trace held before them last.
pub open spec fn latest_first(start: real, directions: Seq<real>) -> Seq<real> {
    directions.reverse().push(start)
}

/// One entry of the trace over a run of steps of the running episode.
pub open spec fn trace_run<L: LinAlg>(
    rd: Reading,
    agents: Seq<PcActorCritic<L>>,
    steps: Seq<LearnStep<L>>,
    gamma: Scalar,
    lambda: Scalar,
) -> bool {
    &&& agents.len() == steps.len() + 1
    &&& forall|j: int|
        0 <= j < steps.len() ==> {
            &&& trace_is_kept(rd, agents[j], #[trigger] steps[j])
            &&& agents[j].config.gamma == gamma
            &&& agents[j].config.gae_lambda == Some(lambda)
            &&& agents[j + 1].actor_trace@ == agents[j].trace_after(steps[j])
        }
}

/// The directions of a run of steps in one entry, in their order.
pub open spec fn run_directions<L: LinAlg>(
    rd: Reading,
    agents: Seq<PcActorCritic<L>>,
    steps: Seq<LearnStep<L>>,
    i: int,
) -> Seq<real> {
    Seq::new(steps.len(), |j: int| step_direction(rd, agents[j], steps[j], i))
}

proof fn latest_comes_first(p: real, start: real, directions: Seq<real>)
    requires
        directions.len() > 0,
    ensures
        discounted_sum(p, latest_first(start, directions)) == directions.last() + p
            * discounted_sum(p, latest_first(start, directions.drop_last())),
{
    let xs = latest_first(start, directions);
    assert(xs.drop_first() =~= latest_first(start, directions.drop_last()));
    discounted_head(p, xs);
}

/// After a run of steps the contribution of each to the eligibility trace is its direction, faded
/// once by discount times trace decay for every step since, as long as no entry meets the clip.
/// With both at one the trace is the plain sum of the directions, with a discount of zero the last
/// direction alone.
pub proof fn trace_is_the_faded_sum<L: LinAlg>(
    rd: Reading,
    agents: Seq<PcActorCritic<L>>,
    steps: Seq<LearnStep<L>>,
    gamma: Scalar,
    lambda: Scalar,
    i: int,
)
    requires
        reads::<L>(rd),
        reads_order(rd),
        trace_run(rd, agents, steps, gamma, lambda),
        0 <= i < agents[0].actor_trace@.len(),
        agents[0].actor_trace@[i].finite(),
        sized(rd.of(agents[0].actor_trace@[i]), rd.of(clip())),
        forall|m: int|
            1 <= m <= steps.len() ==> sized(
                discounted_sum(
                    rd.of(gamma) * rd.of(lambda),
                    latest_first(
                        rd.of(agents[0].actor_trace@[i]),
                        #[trigger] run_directions(rd, agents, steps, i).take(m),
                    ),
                ),
                rd.of(clip()) - trace_error(rd, 0 as real, rd.slack, rd.slack) * (m as real),
            ),
        rd.of(clip()) + rd.of(clip()) * rd.slack + rd.slack + rd.slack + trace_error(
            rd,
            0 as real,
            rd.slack,
            rd.slack,
        ) * (steps.len() as real) + 1 as real <= rd.top,
    ensures
        agents.last().actor_trace@.len() == agents[0].actor_trace@.len(),
        rd.shows(
            agents.last().actor_trace@[i],
            discounted_sum(
                rd.of(gamma) * rd.of(lambda),
                latest_first(
                    rd.of(agents[0].actor_trace@[i]),
                    run_directions(rd, agents, steps, i),
                ),
            ),
            trace_error(rd, 0 as real, rd.slack, rd.slack) * (steps.len() as real),
        ),
        sized(rd.of(agents.last().actor_trace@[i]), rd.of(clip())),
    decreases steps.len(),
{
    let p = rd.of(gamma) * rd.of(lambda);
    let start = rd.of(agents[0].actor_trace@[i]);
    let one = trace_error(rd, 0 as real, rd.slack, rd.slack);
    let dirs = run_directions(rd, agents, steps, i);
    let c = rd.of(clip());
    let s = rd.slack;
    assert(c >= 0 as real && c * s >= 0 as real) by (nonlinear_arith)
        requires
            sized(start, c),
            s >= 0 as real,
    ;
    if steps.len() == 0 {
        let xs = latest_first(start, dirs);
        assert(xs =~= seq![start]);
        discounted_head(p, xs);
        assert(xs.drop_first().len() == 0);
        assert(p * (0 as real) == 0 as real && one * (0 as real) == 0 as real) by (nonlinear_arith);
    } else {
        let n = steps.len() - 1;
        let fewer = steps.drop_last();
        let earlier = agents.drop_last();
        assert forall|j: int| 0 <= j < fewer.len() implies {
            &&& trace_is_kept(rd, earlier[j], #[trigger] fewer[j])
            &&& earlier[j].config.gamma == gamma
            &&& earlier[j].config.gae_lambda == Some(lambda)
            &&& earlier[j + 1].actor_trace@ == earlier[j].trace_after(fewer[j])
        } by {
            assert(trace_is_kept(rd, agents[j], steps[j]));
        }
        let front = run_directions(rd, earlier, fewer, i);
        assert(front =~= dirs.drop_last());
        let e = one * (n as real);
        assert(one * (steps.len() as real) == e + one && e >= 0 as real) by (nonlinear_arith)
            requires
                e == one * (n as real),
                n >= 0,
                steps.len() == n + 1,
                one >= 0 as real,
        ;
        assert forall|m: int| 1 <= m <= fewer.len() implies sized(
            discounted_sum(p, latest_first(start, #[trigger] front.take(m))),
            c - one * (m as real),
        ) by {
            assert(front.take(m) =~= dirs.take(m));
        }
        trace_is_the_faded_sum::<L>(rd, earlier, fewer, gamma, lambda, i);
        let agent = agents[n];
        let step = steps[n];
        assert(earlier.last() == agent);
        assert(trace_is_kept(rd, agents[n], steps[n]));
        let x = discounted_sum(p, latest_first(start, front));
        let d = step_direction(rd, agent, step, i);
        let xs = latest_first(start, dirs);
        latest_comes_first(p, start, dirs);
        assert(dirs.last() == d);
        assert(dirs.take(steps.len() as int) =~= dirs);
        assert(sized(discounted_sum(p, xs), c - one * (steps.len() as real)));
        trace_fades_and_takes_the_step_in::<L>(rd, agent, step, i, x, e);
        assert(agents.last() == agents[n + 1]);
    }
}

/// The agent can say which way a step of the given kind points: the open actions are listed once
/// each, the action taken among them, and their probabilities, with their logarithms, are numbers
/// between zero and one.
pub open spec fn policy_reads<L: LinAlg>(
    rd: Reading,
    pi: Seq<Scalar>,
    valid: Seq<usize>,
    action: usize,
    logs: real,
) -> bool {
    &&& pi.len() <= usize::MAX
    &&& all_below(valid, pi.len())
    &&& valid.no_duplicates()
    &&& valid.contains(action)
    &&& action < pi.len()
    &&& forall|i: int|
        0 <= i < pi.len() ==> {
            let ln = L::logarithm(
                (#[trigger] pi[i]).larger(Scalar { bits: MIN_PROBABILITY_BITS }),
            );
            &&& pi[i].finite()
            &&& 0 as real <= rd.of(pi[i]) <= 1 as real
            &&& ln.finite()
            &&& sized(rd.of(ln) + 1 as real, logs)
        }
}

/// The logarithm of an action's probability, kept from falling too low.
pub open spec fn log_probability<L: LinAlg>(rd: Reading, pi: Seq<Scalar>, i: int) -> real {
    rd.of(L::logarithm(pi[i].larger(Scalar { bits: MIN_PROBABILITY_BITS })))
}

/// The error at the output that a step leaves on an open action, without a trace, is the TD error
/// times the action's probability, less one TD error on the action taken: where the TD error is
/// positive, that action gets a negative error and all others a positive one. The entropy term
/// comes on top of it.
pub proof fn gradient_follows_the_error<L: LinAlg>(
    rd: Reading,
    agent: PcActorCritic<L>,
    step: LearnStep<L>,
    td_error: Scalar,
    i: int,
    bound: real,
    c: real,
    q: real,
)
    requires
        reads::<L>(rd),
        agent.config.gae_lambda is None,
        policy_reads::<L>(
            rd,
            agent.policy(step.logits(), step.valid_actions@),
            step.valid_actions@,
            step.action,
            q,
        ),
        step.valid_actions@.contains(i as usize),
        0 <= i < agent.policy(step.logits(), step.valid_actions@).len(),
        td_error.finite(),
        sized(rd.of(td_error), bound),
        agent.config.entropy_coeff.finite(),
        sized(rd.of(agent.config.entropy_coeff), c),
        bound >= 0 as real,
        c >= 0 as real,
        q >= 0 as real,
        1 as real <= rd.top,
        q <= rd.top,
        bound + rd.slack * bound + rd.slack + c * q + c * rd.slack + rd.slack <= rd.top,
    ensures
        ({
            let pi = agent.policy(step.logits(), step.valid_actions@);
            rd.shows(
                agent.policy_gradient(step, td_error)[i],
                rd.of(td_error) * step_direction(rd, agent, step, i) - rd.of(
                    agent.config.entropy_coeff,
                ) * (log_probability::<L>(rd, pi, i) + 1 as real),
                rd.slack * bound + c * rd.slack + rd.slack + rd.slack + rd.slack,
            )
        }),
{
    let pi = agent.policy(step.logits(), step.valid_actions@);
    let valid = step.valid_actions@;
    let s = rd.slack;
    let d = direction::<L>(pi, valid, step.action);
    let x = step_direction(rd, agent, step, i);
    let t = rd.of(td_error);
    assert(pi[i].finite());
    direction_reads::<L>(rd, pi, valid, step.action, i);
    assert(s * bound >= 0 as real && c * s >= 0 as real && c * q >= 0 as real && (1 as real) * bound
        == bound && sized(x * t, bound) && x * t == t * x) by (nonlinear_arith)
        requires
            s >= 0 as real,
            bound >= 0 as real,
            c >= 0 as real,
            q >= 0 as real,
            sized(x, 1 as real),
            sized(t, bound),
    ;
    weighing_multiplies_open_actions::<L>(rd, d, valid, td_error, i, x, s, 1 as real, bound);
    let w = weighted::<L>(d, valid, td_error);
    entropy_lowers_open_actions::<L>(
        rd,
        w,
        pi,
        valid,
        agent.config.entropy_coeff,
        i,
        x * t,
        s * bound + s,
        c,
        q,
    );
}

/// The same with a trace: the TD error goes along the trace instead of the step's own direction.
pub proof fn gradient_follows_the_trace<L: LinAlg>(
    rd: Reading,
    agent: PcActorCritic<L>,
    step: LearnStep<L>,
    td_error: Scalar,
    i: int,
    x: real,
    e: real,
    bound: real,
    p: real,
    c: real,
    q: real,
)
    requires
        reads::<L>(rd),
        agent.config.gae_lambda is Some,
        step.mode == LearnMode::Online,
        policy_reads::<L>(
            rd,
            agent.policy(step.logits(), step.valid_actions@),
            step.valid_actions@,
            step.action,
            q,
        ),
        step.valid_actions@.contains(i as usize),
        agent.trace_after(step).len() == agent.policy(step.logits(), step.valid_actions@).len(),
        0 <= i < agent.trace_after(step).len(),
        rd.shows(agent.trace_after(step)[i], x, e),
        sized(x, p),
        e >= 0 as real,
        td_error.finite(),
        sized(rd.of(td_error), bound),
        agent.config.entropy_coeff.finite(),
        sized(rd.of(agent.config.entropy_coeff), c),
        bound >= 0 as real,
        p >= 0 as real,
        c >= 0 as real,
        q >= 0 as real,
        q <= rd.top,
        bound * p + bound * e + rd.slack + c * q + c * rd.slack + rd.slack <= rd.top,
    ensures
        ({
            let pi = agent.policy(step.logits(), step.valid_actions@);
            rd.shows(
                agent.policy_gradient(step, td_error)[i],
                rd.of(td_error) * x - rd.of(agent.config.entropy_coeff) * (log_probability::<L>(
                    rd,
                    pi,
                    i,
                ) + 1 as real),
                bound * e + c * rd.slack + rd.slack + rd.slack + rd.slack,
            )
        }),
{
    let pi = agent.policy(step.logits(), step.valid_actions@);
    let valid = step.valid_actions@;
    let s = rd.slack;
    let t = rd.of(td_error);
    let along = multiplied::<L>(td_error, agent.trace_after(step));
    assert((0 as real) * (p + e) + bound * e == bound * e && c * s >= 0 as real && c * q >= 0 as real
        && bound * e >= 0 as real) by (nonlinear_arith)
        requires
            s >= 0 as real,
            c >= 0 as real,
            q >= 0 as real,
            bound >= 0 as real,
            e >= 0 as real,
    ;
    product_shows::<L>(
        rd,
        td_error,
        agent.trace_after(step)[i],
        t,
        x,
        0 as real,
        e,
        bound,
        p,
    );
    products_near(t, x, t, x, 0 as real, 0 as real, bound, p);
    assert(pi[i].finite());
    entropy_lowers_open_actions::<L>(
        rd,
        along,
        pi,
        valid,
        agent.config.entropy_coeff,
        i,
        t * x,
        bound * e + s,
        c,
        q,
    );
}

/// Distillation adds to the gradient, action by action, the pull of each anchor that the actor is
/// drawn to, at the strength that the configuration gives it.
pub proof fn distillation_adds_both_pulls<L: LinAlg>(
    rd: Reading,
    agent: PcActorCritic<L>,
    gradient: Seq<Scalar>,
    step: LearnStep<L>,
    polyak_logits: Seq<Scalar>,
    champion_logits: Seq<Scalar>,
    i: int,
    bound: real,
)
    requires
        reads::<L>(rd),
        0 <= i < gradient.len(),
        gradient.len() == step.logits().len(),
        gradient[i].finite(),
        agent.config.distillation_lambda_polyak.finite(),
        agent.config.distillation_lambda_frozen.finite(),
        sized(rd.of(gradient[i]), bound),
        ({
            let t = agent.actor.config.temperature;
            let valid = step.valid_actions@;
            let a = kl_gradient::<L>(step.logits(), polyak_logits, valid, t)[i];
            let b = kl_gradient::<L>(step.logits(), champion_logits, valid, t)[i];
            &&& a.finite() && sized(
                rd.of(agent.config.distillation_lambda_polyak) * rd.of(a),
                bound,
            )
            &&& b.finite() && sized(
                rd.of(agent.config.distillation_lambda_frozen) * rd.of(b),
                bound,
            )
        }),
        bound >= 0 as real,
        bound + bound + bound + rd.slack + rd.slack + rd.slack + rd.slack <= rd.top,
    ensures
        ({
            let t = agent.actor.config.temperature;
            let valid = step.valid_actions@;
            let a = kl_gradient::<L>(step.logits(), polyak_logits, valid, t)[i];
            let b = kl_gradient::<L>(step.logits(), champion_logits, valid, t)[i];
            let polyak = if agent.drawn_to_polyak(valid.len()) {
                rd.of(agent.config.distillation_lambda_polyak) * rd.of(a)
            } else {
                0 as real
            };
            let champion = if agent.drawn_to_champion(valid.len()) {
                rd.of(agent.config.distillation_lambda_frozen) * rd.of(b)
            } else {
                0 as real
            };
            rd.shows(
                agent.distilled(gradient, step, polyak_logits, champion_logits)[i],
                rd.of(gradient[i]) + polyak + champion,
                rd.slack + rd.slack + rd.slack + rd.slack,
            )
        }),
{
    let t = agent.actor.config.temperature;
    let valid = step.valid_actions@;
    let s = rd.slack;
    let ka = kl_gradient::<L>(step.logits(), polyak_logits, valid, t);
    let kb = kl_gradient::<L>(step.logits(), champion_logits, valid, t);
    let one = if agent.drawn_to_polyak(valid.len()) {
        nudged::<L>(gradient, agent.config.distillation_lambda_polyak, ka)
    } else {
        gradient
    };
    let x = if agent.drawn_to_polyak(valid.len()) {
        rd.of(gradient[i]) + rd.of(agent.config.distillation_lambda_polyak) * rd.of(ka[i])
    } else {
        rd.of(gradient[i])
    };
    if agent.drawn_to_polyak(valid.len()) {
        nudge_reads::<L>(
            rd,
            gradient,
            agent.config.distillation_lambda_polyak,
            ka,
            i,
            rd.of(gradient[i]),
            0 as real,
        );
    }
    assert(rd.shows(one[i], x, s + s));
    if agent.drawn_to_champion(valid.len()) {
        nudge_reads::<L>(
            rd,
            one,
            agent.config.distillation_lambda_frozen,
            kb,
            i,
            x,
            s + s,
        );
    }
}

/// An actor that already agrees with its anchors on the open actions is not pulled anywhere: the
/// error at the output stays what it was, up to rounding.
pub proof fn agreeing_anchors_do_not_pull<L: LinAlg>(
    rd: Reading,
    agent: PcActorCritic<L>,
    gradient: Seq<Scalar>,
    step: LearnStep<L>,
    polyak_logits: Seq<Scalar>,
    champion_logits: Seq<Scalar>,
    i: int,
)
    requires
        reads::<L>(rd),
        cancels::<L>(),
        0 <= i < gradient.len(),
        gradient.len() == step.logits().len(),
        gradient[i].finite(),
        sized(rd.of(gradient[i]), rd.top - rd.slack - rd.slack - rd.slack - rd.slack),
        agent.config.distillation_lambda_polyak.finite(),
        agent.config.distillation_lambda_frozen.finite(),
        all_below(step.valid_actions@, step.logits().len()),
        all_below(step.valid_actions@, polyak_logits.len()),
        all_below(step.valid_actions@, champion_logits.len()),
        forall|k: int|
            0 <= k < step.valid_actions@.len() ==> {
                let a = (#[trigger] step.valid_actions@[k]) as int;
                &&& step.logits()[a] == polyak_logits[a]
                &&& step.logits()[a] == champion_logits[a]
            },
        forall|k: int|
            0 <= k < step.valid_actions@.len() ==> {
                let lp = #[trigger] log_policy::<L>(
                    picked::<L>(
                        step.logits(),
                        step.valid_actions@,
                        agent.actor.config.temperature,
                    ),
                )[k];
                lp.finite() && L::exponential(lp).finite()
            },
    ensures
        rd.shows(
            agent.distilled(gradient, step, polyak_logits, champion_logits)[i],
            rd.of(gradient[i]),
            rd.slack + rd.slack + rd.slack + rd.slack,
        ),
{
    let t = agent.actor.config.temperature;
    agreeing_policies_do_not_pull::<L>(step.logits(), polyak_logits, step.valid_actions@, t);
    agreeing_policies_do_not_pull::<L>(step.logits(), champion_logits, step.valid_actions@, t);
    let lp = rd.of(agent.config.distillation_lambda_polyak);
    let lf = rd.of(agent.config.distillation_lambda_frozen);
    assert(lp * (0 as real) == 0 as real && lf * (0 as real) == 0 as real) by (nonlinear_arith);
    let g = gradient;
    let s = rd.slack;
    let x = rd.of(g[i]);
    let zeros = zero_seq(g.len());
    assert(zeros[i] == Scalar::zero());
    let one = if agent.drawn_to_polyak(step.valid_actions@.len()) {
        nudged::<L>(g, agent.config.distillation_lambda_polyak, zeros)
    } else {
        g
    };
    if agent.drawn_to_polyak(step.valid_actions@.len()) {
        nudge_reads::<L>(
            rd,
            g,
            agent.config.distillation_lambda_polyak,
            zeros,
            i,
            x,
            0 as real,
        );
    }
    assert(rd.shows(one[i], x, s + s));
    if agent.drawn_to_champion(step.valid_actions@.len()) {
        nudge_reads::<L>(
            rd,
            one,
            agent.config.distillation_lambda_frozen,
            zeros,
            i,
            x,
            s + s,
        );
    }
}

/// After a step that adds to the importance records, the importance of every weight of the actor is
/// a smoothed square of the gradients that it got: it keeps the configured share of itself and
/// takes the rest from the square of its row's gradient.
pub proof fn importance_follows_the_gradients<L: LinAlg>(
    rd: Reading,
    before: PcActorCritic<L>,
    after: PcActorCritic<L>,
    step: LearnStep<L>,
    td_error: Scalar,
    polyak_logits: Seq<Scalar>,
    champion_logits: Seq<Scalar>,
    update: ActorUpdate<L>,
    i: int,
    r: int,
    c: int,
    bound: real,
)
    requires
        reads::<L>(rd),
        actor_planned(
            before,
            after,
            step,
            td_error,
            polyak_logits,
            champion_logits,
            update,
        ),
        before.consolidates(step.mode),
        0 <= i < before.actor_fisher@.len(),
        0 <= r < fisher_views(before.actor_fisher@)[i].ema_weights.rows,
        0 <= c < fisher_views(before.actor_fisher@)[i].ema_weights.cols,
        ({
            let kept = fisher_views(before.actor_fisher@)[i].ema_weights.at(r, c);
            let g = layer_gradient(
                before.actor,
                *step.infer,
                before.importance_error(step, update.delta@),
                i,
            )[r];
            &&& kept.finite() && sized(rd.of(kept), bound)
            &&& g.finite() && sized(rd.of(g) * rd.of(g), bound)
        }),
        before.config.fisher_ema_beta.finite(),
        0 as real <= rd.of(before.config.fisher_ema_beta) <= 1 as real,
        bound >= 0 as real,
        1 as real <= rd.top,
        bound + bound + rd.slack * (bound + rd.slack) + rd.slack + rd.slack + rd.slack <= rd.top,
    ensures
        ({
            let kept = rd.of(fisher_views(before.actor_fisher@)[i].ema_weights.at(r, c));
            let g = rd.of(
                layer_gradient(
                    before.actor,
                    *step.infer,
                    before.importance_error(step, update.delta@),
                    i,
                )[r],
            );
            let b = rd.of(before.config.fisher_ema_beta);
            rd.shows(
                fisher_views(after.actor_fisher@)[i].ema_weights.at(r, c),
                b * kept + (1 as real - b) * (g * g),
                rd.slack * (bound + rd.slack) + rd.slack + rd.slack + rd.slack + rd.slack,
            )
        }),
{
    importance_is_the_smoothed_square::<L>(
        rd,
        fisher_views(before.actor_fisher@)[i],
        layer_gradient(
            before.actor,
            *step.infer,
            before.importance_error(step, update.delta@),
            i,
        ),
        before.config.fisher_ema_beta,
        r,
        c,
        bound,
    );
}

/// The same of the biases.
pub proof fn bias_importance_follows_the_gradients<L: LinAlg>(
    rd: Reading,
    before: PcActorCritic<L>,
    after: PcActorCritic<L>,
    step: LearnStep<L>,
    td_error: Scalar,
    polyak_logits: Seq<Scalar>,
    champion_logits: Seq<Scalar>,
    update: ActorUpdate<L>,
    i: int,
    j: int,
    bound: real,
)
    requires
        reads::<L>(rd),
        actor_planned(
            before,
            after,
            step,
            td_error,
            polyak_logits,
            champion_logits,
            update,
        ),
        before.consolidates(step.mode),
        0 <= i < before.actor_fisher@.len(),
        0 <= j < fisher_views(before.actor_fisher@)[i].ema_bias.len(),
        ({
            let kept = fisher_views(before.actor_fisher@)[i].ema_bias[j];
            let g = layer_gradient(
                before.actor,
                *step.infer,
                before.importance_error(step, update.delta@),
                i,
            )[j];
            &&& kept.finite() && sized(rd.of(kept), bound)
            &&& g.finite() && sized(rd.of(g) * rd.of(g), bound)
        }),
        before.config.fisher_ema_beta.finite(),
        0 as real <= rd.of(before.config.fisher_ema_beta) <= 1 as real,
        bound >= 0 as real,
        1 as real <= rd.top,
        bound + bound + rd.slack * (bound + rd.slack) + rd.slack + rd.slack + rd.slack <= rd.top,
    ensures
        ({
            let kept = rd.of(fisher_views(before.actor_fisher@)[i].ema_bias[j]);
            let g = rd.of(
                layer_gradient(
                    before.actor,
                    *step.infer,
                    before.importance_error(step, update.delta@),
                    i,
                )[j],
            );
            let b = rd.of(before.config.fisher_ema_beta);
            rd.shows(
                fisher_views(after.actor_fisher@)[i].ema_bias[j],
                b * kept + (1 as real - b) * (g * g),
                rd.slack * (bound + rd.slack) + rd.slack + rd.slack + rd.slack + rd.slack,
            )
        }),
{
    bias_importance_is_the_smoothed_square::<L>(
        rd,
        fisher_views(before.actor_fisher@)[i],
        layer_gradient(
            before.actor,
            *step.infer,
            before.importance_error(step, update.delta@),
            i,
        ),
        before.config.fisher_ema_beta,
        j,
        bound,
    );
}

/// The policy is the softmax of the actor's output at the configured temperature: of numbers that,
/// times the temperature, are the output.
pub proof fn policy_is_taken_at_the_temperature<L: LinAlg>(
    rd: Reading,
    agent: PcActorCritic<L>,
    logits: Seq<Scalar>,
    valid: Seq<usize>,
)
    requires
        reads::<L>(rd),
        reads_order(rd),
        reads_quotients::<L>(rd),
        agent.actor.config.temperature.finite(),
        rd.of(agent.actor.config.temperature) > 0 as real,
        rd.bounds(logits, rd.top * rd.of(agent.actor.config.temperature)),
    ensures
        exists|x: Seq<Scalar>|
            {
                let t = rd.of(agent.actor.config.temperature);
                &&& agent.policy(logits, valid) == #[trigger] L::softmax(x, valid)
                &&& x.len() == logits.len()
                &&& forall|i: int|
                    0 <= i < x.len() ==> (#[trigger] x[i]).finite() && near(
                        rd.of(x[i]) * t,
                        rd.of(logits[i]),
                        rd.slack * t,
                    )
            },
{
    let t = rd.of(agent.actor.config.temperature);
    let x = tempered::<L>(logits, agent.actor.config.temperature);
    assert forall|i: int| 0 <= i < x.len() implies (#[trigger] x[i]).finite() && near(
        rd.of(x[i]) * t,
        rd.of(logits[i]),
        rd.slack * t,
    ) by {
        assert(logits[i].finite());
        tempering_divides_by_the_temperature::<L>(rd, logits, agent.actor.config.temperature, i);
    }
    assert(agent.policy(logits, valid) == L::softmax(x, valid));
}

/// With reversed logits the importance records are fed with the softmax of the output turned round,
/// at the configured temperature, less one at the action. Otherwise they are fed with the gradient
/// itself.
pub proof fn importance_goes_by_reversed_logits<L: LinAlg>(
    rd: Reading,
    agent: PcActorCritic<L>,
    step: LearnStep<L>,
    delta: Seq<Scalar>,
)
    requires
        reads::<L>(rd),
        reads_order(rd),
        reads_quotients::<L>(rd),
        agent.actor.config.temperature.finite(),
        rd.of(agent.actor.config.temperature) > 0 as real,
        rd.bounds(step.logits(), rd.top * rd.of(agent.actor.config.temperature)),
    ensures
        !agent.config.logits_reversal ==> agent.importance_error(step, delta) == delta,
        agent.config.logits_reversal ==> exists|x: Seq<Scalar>|
            {
                let t = rd.of(agent.actor.config.temperature);
                let p = #[trigger] L::softmax(x, step.valid_actions@);
                let e = agent.importance_error(step, delta);
                let a = step.action as int;
                &&& x.len() == step.logits().len()
                &&& forall|i: int|
                    0 <= i < x.len() ==> (#[trigger] x[i]).finite() && near(
                        rd.of(x[i]) * t,
                        -rd.of(step.logits()[i]),
                        rd.slack * t,
                    )
                &&& forall|i: int|
                    0 <= i < p.len() && i != a && a < p.len() ==> #[trigger] e[i] == p[i]
                &&& a < p.len() && p[a].finite() && sized(
                    rd.of(p[a]) - 1 as real,
                    rd.top,
                ) ==> rd.shows(e[a], rd.of(p[a]) - 1 as real, rd.slack)
            },
{
    let t = rd.of(agent.actor.config.temperature);
    let logits = step.logits();
    let x = reversed::<L>(logits, agent.actor.config.temperature);
    assert forall|i: int| 0 <= i < x.len() implies (#[trigger] x[i]).finite() && near(
        rd.of(x[i]) * t,
        -rd.of(logits[i]),
        rd.slack * t,
    ) by {
        assert(logits[i].finite());
        tempering_divides_by_the_temperature::<L>(rd, logits, agent.actor.config.temperature, i);
    }
    let p = L::softmax(x, step.valid_actions@);
    assert(Scalar::one().finite());
    if agent.config.logits_reversal {
        assert(agent.importance_error(step, delta) == one_less::<L>(p, step.action as int));
    }
}

} // verus!
