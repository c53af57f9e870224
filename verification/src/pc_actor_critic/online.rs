//! One learning step from end to end, with the networks called in between.

use vstd::prelude::*;

use crate::error::PcError;
use crate::linalg::LinAlg;
use crate::network_ops::{actor_moved, critic_moved, inferred, valued, Networks};
use crate::networks::{
    averaging_keeps_topology, layer_views, topology_symmetric, topology_transitive, InferResult,
    MlpCritic, PcActor,
};
use crate::pc_actor_critic::agent::PcActorCritic;
use crate::pc_actor_critic::bookkeeping::{layers_correspond, update_finished};
use crate::pc_actor_critic::fisher::{fisher_views, fishers_fit, FisherView};
use crate::pc_actor_critic::fitting::{
    actor_kept, chain_is_ready, corresponding_layers_keep_topology, critic_kept, keep_actor,
    keep_critic, positions_below, records_fit, records_fit_corresponding,
    replacing_keeps_anchors, replacing_keeps_layers, same_topology,
};
use crate::pc_actor_critic::gradients::{absorbed_all, chain_ready};
use crate::pc_actor_critic::learning::{
    actor_planned, critic_input, target_is_reward_and_discounted_value, ticked, ActorUpdate,
    LearnStep,
};
use crate::pc_actor_critic::policy::all_below;
use crate::pc_actor_critic::scaling::LearnMode;
use crate::reading::{reads, reads_order, sized, Reading};
use crate::scalar::{Scalar, SIGN_BITS};

verus! {

impl<'a, L: LinAlg> LearnStep<'a, L> {
    /// What the critic is asked about the observation.
    pub open spec fn seen(self) -> Seq<Scalar> {
        self.state@ + L::seq(self.infer.latent_concat)
    }

    /// What the critic is asked about the observation that followed.
    pub open spec fn seen_next(self) -> Seq<Scalar> {
        self.next_state@ + L::seq(self.next_infer.latent_concat)
    }
}

/// The answers that one learning step got, and what it made of them.
pub struct LearnRecord<L: LinAlg> {
    /// What the critic said of the observation.
    pub v_s: Scalar,
    /// What the critic said of the observation that followed.
    pub v_next: Scalar,
    /// What the Polyak target inferred at the observation.
    pub polyak: InferResult<L>,
    /// What the champion inferred at the observation.
    pub champion: InferResult<L>,
    /// The critic that came back, and its loss.
    pub critic: (MlpCritic<L>, Scalar),
    /// The agent with the update of its actor planned.
    pub planned: PcActorCritic<L>,
    /// That update.
    pub update: ActorUpdate<L>,
    /// The actor that came back.
    pub actor: PcActor<L>,
}

/// The error for a step that the networks cannot have taken.
pub open spec fn misfit_text() -> Seq<char> {
    "the step does not fit the networks"@
}

impl<L: LinAlg> PcActorCritic<L> {
    /// The step counted, where it belongs to the running episode.
    pub open spec fn counted(self, mode: LearnMode) -> PcActorCritic<L> {
        PcActorCritic {
            steps_since_last_rollback_hard: ticked(self.steps_since_last_rollback_hard, mode),
            ..self
        }
    }

    /// The agent can learn from the step: its actions exist, and trace, importance records,
    /// decay and Polyak target fit the actor and its inference results where they are used.
    pub open spec fn learnable(self, step: LearnStep<L>) -> bool {
        &&& step.actions_exist()
        &&& step.mode == LearnMode::Online && self.config.gae_lambda is Some
            ==> self.actor_trace@.len() == step.logits().len()
        &&& self.consolidates(step.mode) ==> {
            &&& chain_ready(self.actor, *step.infer)
            &&& fishers_fit(fisher_views(self.actor_fisher@), layer_views(self.actor.layers@))
            &&& self.actor_decay().len() == 0 || self.actor.config.hidden_layers@.len()
                <= self.actor_decay().len()
        }
        &&& self.polyak_target matches Some(p) ==> p.weights().same_topology(self.actor.weights())
    }

    /// The step is learnable, and the anchors answered for every open action.
    pub open spec fn answered(self, step: LearnStep<L>, record: LearnRecord<L>) -> bool {
        let choices = step.valid_actions@.len();
        &&& self.learnable(step)
        &&& self.drawn_to_polyak(choices) ==> all_below(
            step.valid_actions@,
            L::seq(record.polyak.y_conv).len(),
        )
        &&& self.drawn_to_champion(choices) ==> all_below(
            step.valid_actions@,
            L::seq(record.champion.y_conv).len(),
        )
    }

    /// Nothing differs but what a learning step changes: the networks, what is remembered of
    /// recent steps, the importance records and the count of steps.
    pub open spec fn same_besides_learning(self, other: Self) -> bool {
        self == (PcActorCritic {
            actor: self.actor,
            critic: self.critic,
            polyak_target: self.polyak_target,
            actor_fisher: self.actor_fisher,
            actor_trace: self.actor_trace,
            layer_error_ema: self.layer_error_ema,
            surprise_buffer: self.surprise_buffer,
            td_error_buffer: self.td_error_buffer,
            last_td_error: self.last_td_error,
            steps_since_last_rollback_hard: self.steps_since_last_rollback_hard,
            ..other
        })
    }
}

/// What the networks were asked in a learning step, and what was made of their answers. The
/// critic is asked for the values that the step does not bring along. Nothing is learned from
/// a TD error that is not finite, nor from a step that does not fit the networks. Otherwise
/// critic and actor are moved, a network that came back in another shape is not kept, and the
/// step is remembered.
pub open spec fn learned_along<L: LinAlg, N: Networks<L>>(
    nets: &N,
    before: PcActorCritic<L>,
    after: PcActorCritic<L>,
    step: LearnStep<L>,
    result: Result<Scalar, PcError>,
    record: LearnRecord<L>,
) -> bool {
    let start = before.counted(step.mode);
    let td_error = step.td_error(record.v_s, record.v_next);
    let choices = step.valid_actions@.len();
    &&& step.pre_v_s is None ==> valued(
        nets,
        &before.backend,
        &before.critic,
        step.seen(),
        record.v_s,
    )
    &&& step.pre_td_error is None && !step.done ==> valued(
        nets,
        &before.backend,
        &before.critic,
        step.seen_next(),
        record.v_next,
    )
    &&& td_error.finite() && before.drawn_to_polyak(choices) ==> inferred(
        nets,
        &before.backend,
        &before.polyak_target->0,
        step.state@,
        record.polyak,
    )
    &&& td_error.finite() && before.drawn_to_champion(choices) ==> inferred(
        nets,
        &before.backend,
        &before.frozen_champion->0,
        step.state@,
        record.champion,
    )
    &&& if !td_error.finite() {
        result == Ok::<Scalar, PcError>(Scalar::zero()) && after == start
    } else if !before.answered(step, record) {
        &&& result matches Err(e) && e.says(misfit_text())
        &&& after == start
    } else {
        let valuing = PcActorCritic {
            critic: critic_kept(record.critic.0, before.critic),
            ..start
        };
        let acting = PcActorCritic {
            actor: actor_kept(record.actor, before.actor),
            ..record.planned
        };
        &&& critic_moved(
            nets,
            &before.backend,
            &before.critic,
            step.seen(),
            step.target(record.v_s, record.v_next),
            before.critic_scale_in(td_error.magnitude_of(), step.mode),
            before.critic_decay_factors@,
            record.critic,
        )
        &&& actor_planned(
            valuing,
            record.planned,
            step,
            td_error,
            if before.drawn_to_polyak(choices) {
                L::seq(record.polyak.y_conv)
            } else {
                Seq::empty()
            },
            if before.drawn_to_champion(choices) {
                L::seq(record.champion.y_conv)
            } else {
                Seq::empty()
            },
            record.update,
        )
        &&& actor_moved(
            nets,
            &before.backend,
            &before.actor,
            record.update.delta@,
            step.infer,
            step.state@,
            record.update.scale,
            record.update.decay@,
            record.actor,
        )
        &&& update_finished(acting, after, step, record.update)
        &&& result == Ok::<Scalar, PcError>(record.critic.1)
    }
}

/// The agent learned from a step, whatever the networks answered.
pub open spec fn learned<L: LinAlg, N: Networks<L>>(
    nets: &N,
    before: PcActorCritic<L>,
    after: PcActorCritic<L>,
    step: LearnStep<L>,
    result: Result<Scalar, PcError>,
) -> bool {
    exists|record: LearnRecord<L>|
        #[trigger] learned_along(nets, before, after, step, result, record)
}

proof fn absorbing_keeps_shape<L: LinAlg>(
    f: Seq<FisherView>,
    actor: PcActor<L>,
    infer: InferResult<L>,
    delta: Seq<Scalar>,
    beta: Scalar,
)
    requires
        fishers_fit(f, layer_views(actor.layers@)),
    ensures
        fishers_fit(absorbed_all(f, actor, infer, delta, beta), layer_views(actor.layers@)),
{
    let a = absorbed_all(f, actor, infer, delta, beta);
    assert forall|i: int| 0 <= i < a.len() implies (#[trigger] a[i]).fits(
        layer_views(actor.layers@)[i],
    ) by {
        assert(f[i].fits(layer_views(actor.layers@)[i]));
    }
}

proof fn update_leaves_shapes<L: LinAlg>(
    before: PcActorCritic<L>,
    after: PcActorCritic<L>,
    step: LearnStep<L>,
    update: ActorUpdate<L>,
)
    requires
        update_finished(before, after, step, update),
    ensures
        layers_correspond(layer_views(after.actor.layers@), layer_views(before.actor.layers@)),
{
    let a = layer_views(after.actor.layers@);
    let b = layer_views(before.actor.layers@);
    assert forall|i: int| 0 <= i < a.len() implies (#[trigger] a[i]).same_shape(b[i]) by {
        match update.before {
            Some(x) => {
                assert(b[i] == before.actor.layers@[i]@);
            },
            None => {},
        }
    }
}

impl<L: LinAlg> PcActorCritic<L> {
    fn is_learnable(&self, step: &LearnStep<L>) -> (r: bool)
        ensures
            r == self.learnable(*step),
    {
        let outputs: usize = self.backend.vec_len(&step.infer.y_conv);
        if step.action >= outputs || !positions_below(step.valid_actions, outputs) {
            return false;
        }
        let online = step.mode == LearnMode::Online;
        if online && self.config.gae_lambda.is_some() && self.actor_trace.len() != outputs {
            return false;
        }
        let consolidates = online && Scalar::zero().lt(self.config.ewc_lambda)
            && self.actor_fisher.len() > 0;
        if consolidates {
            let decay: usize = if self.config.adaptive_consolidation {
                self.layer_error_ema.len()
            } else {
                self.actor_decay_factors.len()
            };
            if !chain_is_ready(&self.backend, &self.actor, step.infer) || !records_fit(
                &self.backend,
                &self.actor_fisher,
                &self.actor.layers,
            ) || (decay != 0 && self.actor.config.hidden_layers.len() > decay) {
                return false;
            }
        }
        match &self.polyak_target {
            Some(p) => same_topology(&self.backend, p, &self.actor),
            None => true,
        }
    }

    /// One learning step with the networks called in between; gives the critic's loss.
    #[verifier::rlimit(30)]
    pub fn learn_continuous_inner<N: Networks<L>>(
        &mut self,
        nets: &N,
        step: &LearnStep<L>,
    ) -> (r: Result<Scalar, PcError>)
        ensures
            learned(nets, *old(self), *final(self), *step, r),
            final(self).same_besides_learning(*old(self)),
            old(self).importance_fits() ==> final(self).importance_fits(),
            old(self).anchors_fit() ==> final(self).anchors_fit(),
    {
        let ghost before = *self;
        let input = critic_input(&self.backend, step.state, &step.infer.latent_concat);
        let v_s = match step.pre_v_s {
            Some(v) => v,
            None => nets.value(&self.backend, &self.critic, input.as_slice()),
        };
        let v_next = if step.done || step.pre_td_error.is_some() {
            Scalar::zero()
        } else {
            let next = critic_input(&self.backend, step.next_state, &step.next_infer.latent_concat);
            nets.value(&self.backend, &self.critic, next.as_slice())
        };
        let ghost td_error = step.td_error(v_s, v_next);
        let ghost choices = step.valid_actions@.len();
        let ghost any: LearnRecord<L> = arbitrary();
        let plan = match self.plan_critic_update(step, v_s, v_next) {
            Some(u) => u,
            None => {
                proof {
                    let record = LearnRecord { v_s, v_next, ..any };
                    assert(learned_along(
                        nets,
                        before,
                        *self,
                        *step,
                        Ok::<Scalar, PcError>(Scalar::zero()),
                        record,
                    ));
                }
                return Ok(Scalar::zero());
            },
        };
        let ghost mut polyak_seen: InferResult<L> = any.polyak;
        let ghost mut champion_seen: InferResult<L> = any.champion;
        let mut polyak: Vec<Scalar> = Vec::new();
        let mut champion: Vec<Scalar> = Vec::new();
        let mut answered = true;
        if self.needs_polyak_logits(step.valid_actions) {
            match &self.polyak_target {
                Some(p) => {
                    let seen = nets.infer(&self.backend, p, step.state);
                    polyak = self.backend.vec_to_vec(&seen.y_conv);
                    answered = positions_below(step.valid_actions, polyak.len());
                    proof {
                        polyak_seen = seen;
                    }
                },
                None => {},
            }
        }
        if self.needs_champion_logits(step.valid_actions) {
            match &self.frozen_champion {
                Some(p) => {
                    let seen = nets.infer(&self.backend, p, step.state);
                    champion = self.backend.vec_to_vec(&seen.y_conv);
                    answered = positions_below(step.valid_actions, champion.len()) && answered;
                    proof {
                        champion_seen = seen;
                    }
                },
                None => {},
            }
        }
        let ghost record = LearnRecord {
            v_s,
            v_next,
            polyak: polyak_seen,
            champion: champion_seen,
            ..any
        };
        assert(before.actor_decay() == self.actor_decay());
        assert(before.learnable(*step) == self.learnable(*step));
        if !answered || !self.is_learnable(step) {
            let e = PcError::ConfigValidation(
                String::from_str("the step does not fit the networks"),
            );
            proof {
                assert(!before.answered(*step, record));
                assert(learned_along(
                    nets,
                    before,
                    *self,
                    *step,
                    Err::<Scalar, PcError>(e),
                    record,
                ));
            }
            return Err(e);
        }
        assert(before.answered(*step, record));
        let (critic, loss) = nets.move_critic(
            &self.backend,
            &self.critic,
            input.as_slice(),
            plan.target,
            plan.scale,
            self.critic_decay_factors.as_slice(),
        );
        keep_critic(&self.backend, &mut self.critic, critic);
        let ghost valuing = *self;
        assert(before.actor_decay() == self.actor_decay());
        let update = self.plan_actor_update(
            step,
            &plan,
            polyak.as_slice(),
            champion.as_slice(),
        );
        let ghost planned = *self;
        let actor = nets.move_actor(
            &self.backend,
            &self.actor,
            update.delta.as_slice(),
            step.infer,
            step.state,
            update.scale,
            update.decay.as_slice(),
        );
        keep_actor(&self.backend, &mut self.actor, actor);
        let ghost acting = *self;
        proof {
            replacing_keeps_layers(acting.actor, before.actor);
            if before.consolidates(step.mode) {
                absorbing_keeps_shape(
                    fisher_views(before.actor_fisher@),
                    before.actor,
                    *step.infer,
                    valuing.importance_error(*step, update.delta@),
                    before.config.fisher_ema_beta,
                );
                records_fit_corresponding(
                    fisher_views(acting.actor_fisher@),
                    layer_views(before.actor.layers@),
                    layer_views(acting.actor.layers@),
                );
            }
            if acting.polyak_target is Some {
                let p = acting.polyak_target->0.weights();
                topology_symmetric(acting.actor.weights(), before.actor.weights());
                topology_transitive(p, before.actor.weights(), acting.actor.weights());
            }
            assert(acting.update_fits(update));
        }
        self.finish_actor_update(step, &update);
        proof {
            let full = LearnRecord {
                critic: (critic, loss),
                planned,
                update,
                actor,
                ..record
            };
            assert(before.answered(*step, full));
            assert(learned_along(
                nets,
                before,
                *self,
                *step,
                Ok::<Scalar, PcError>(loss),
                full,
            ));
            if before.importance_fits() {
                update_leaves_shapes(acting, *self, *step, update);
                keep_importance(before, planned, acting, *self);
            }
            if before.anchors_fit() {
                replacing_keeps_anchors(before, acting);
                update_leaves_shapes(acting, *self, *step, update);
                corresponding_layers_keep_topology(self.actor, acting.actor);
                keep_anchors(acting, *self);
            }
        }
        Ok(loss)
    }

    /// Learns from one step of the running episode; gives the critic's loss, or zero where
    /// nothing was learned.
    pub fn learn_continuous<N: Networks<L>>(
        &mut self,
        nets: &N,
        input: &[Scalar],
        infer: &InferResult<L>,
        action: usize,
        valid_actions: &[usize],
        reward: Scalar,
        next_input: &[Scalar],
        next_infer: &InferResult<L>,
        terminal: bool,
    ) -> (r: Scalar)
        ensures
            exists|result: Result<Scalar, PcError>|
                {
                    &&& #[trigger] learned(
                        nets,
                        *old(self),
                        *final(self),
                        (LearnStep {
                            state: input,
                            infer,
                            action,
                            valid_actions,
                            reward,
                            next_state: next_input,
                            next_infer,
                            done: terminal,
                            gamma: old(self).config.gamma,
                            pre_v_s: None,
                            pre_td_error: None,
                            mode: LearnMode::Online,
                        }),
                        result,
                    )
                    &&& r == match result {
                        Ok(loss) => loss,
                        Err(e) => Scalar::zero(),
                    }
                },
            final(self).same_besides_learning(*old(self)),
            old(self).importance_fits() ==> final(self).importance_fits(),
            old(self).anchors_fit() ==> final(self).anchors_fit(),
    {
        let gamma = self.config.gamma;
        let step = LearnStep::online(
            input,
            infer,
            action,
            valid_actions,
            reward,
            next_input,
            next_infer,
            terminal,
            gamma,
        );
        let result = self.learn_continuous_inner(nets, &step);
        assert(learned(nets, *old(self), *self, step, result));
        match result {
            Ok(loss) => loss,
            Err(_) => Scalar::zero(),
        }
    }
}

proof fn keep_anchors<L: LinAlg>(acting: PcActorCritic<L>, after: PcActorCritic<L>)
    requires
        acting.anchors_fit(),
        after.actor.weights().same_topology(acting.actor.weights()),
        after.frozen_champion == acting.frozen_champion,
        after.polyak_target is Some <==> acting.polyak_target is Some,
        after.polyak_target matches Some(p) ==> p.weights()
            == acting.polyak_target->0.weights().averaged::<L>(
            after.actor.weights(),
            acting.config.polyak_tau,
        ),
    ensures
        after.anchors_fit(),
{
    let a = acting.actor.weights();
    let b = after.actor.weights();
    topology_symmetric(b, a);
    if acting.polyak_target is Some {
        let p = acting.polyak_target->0.weights();
        topology_transitive(p, a, b);
        averaging_keeps_topology::<L>(p, b, acting.config.polyak_tau);
    }
    if acting.frozen_champion is Some {
        topology_transitive(acting.frozen_champion->0.weights(), a, b);
    }
}

proof fn keep_importance<L: LinAlg>(
    before: PcActorCritic<L>,
    planned: PcActorCritic<L>,
    acting: PcActorCritic<L>,
    after: PcActorCritic<L>,
)
    requires
        before.importance_fits(),
        fisher_views(planned.actor_fisher@) == fisher_views(before.actor_fisher@) || fishers_fit(
            fisher_views(planned.actor_fisher@),
            layer_views(before.actor.layers@),
        ),
        after.actor_fisher == planned.actor_fisher,
        after.critic_fisher == before.critic_fisher,
        layers_correspond(layer_views(acting.actor.layers@), layer_views(before.actor.layers@)),
        layers_correspond(layer_views(after.actor.layers@), layer_views(acting.actor.layers@)),
        layers_correspond(layer_views(after.critic.layers@), layer_views(before.critic.layers@)),
    ensures
        after.importance_fits(),
{
    let a = layer_views(before.actor.layers@);
    let b = layer_views(acting.actor.layers@);
    let c = layer_views(after.actor.layers@);
    assert forall|i: int| 0 <= i < c.len() implies (#[trigger] c[i]).same_shape(a[i]) by {
        assert(c[i].same_shape(b[i]));
        assert(b[i].same_shape(a[i]));
    }
    assert(fisher_views(planned.actor_fisher@).len() == planned.actor_fisher@.len());
    assert(fisher_views(before.actor_fisher@).len() == before.actor_fisher@.len());
    if after.actor_fisher@.len() > 0 {
        records_fit_corresponding(fisher_views(after.actor_fisher@), a, c);
    }
    if after.critic_fisher@.len() > 0 {
        records_fit_corresponding(
            fisher_views(after.critic_fisher@),
            layer_views(before.critic.layers@),
            layer_views(after.critic.layers@),
        );
    }
}

/// Every learning step of the running episode counts once, and no replayed one does, whether
/// or not anything could be learned from it.
pub proof fn learning_steps_are_counted<L: LinAlg, N: Networks<L>>(
    nets: &N,
    before: PcActorCritic<L>,
    after: PcActorCritic<L>,
    step: LearnStep<L>,
    result: Result<Scalar, PcError>,
)
    requires
        learned(nets, before, after, step, result),
    ensures
        after.steps_since_last_rollback_hard == ticked(
            before.steps_since_last_rollback_hard,
            step.mode,
        ),
{
    let record: LearnRecord<L> = choose|record: LearnRecord<L>|
        #[trigger] learned_along(nets, before, after, step, result, record);
}

/// A TD error that is not finite changes nothing but the count: no weight, no record and no
/// memory, whether the error was brought along or computed from what the critic said.
pub proof fn unusable_error_changes_nothing<L: LinAlg, N: Networks<L>>(
    nets: &N,
    before: PcActorCritic<L>,
    after: PcActorCritic<L>,
    step: LearnStep<L>,
    result: Result<Scalar, PcError>,
    record: LearnRecord<L>,
)
    requires
        learned_along(nets, before, after, step, result, record),
        !step.td_error(record.v_s, record.v_next).finite(),
    ensures
        after == before.counted(step.mode),
        result == Ok::<Scalar, PcError>(Scalar::zero()),
{
}

/// What the critic may say of a step, where the step does not bring its values along.
pub open spec fn critic_may_say<L: LinAlg, N: Networks<L>>(
    nets: &N,
    agent: PcActorCritic<L>,
    step: LearnStep<L>,
    v_s: Scalar,
    v_next: Scalar,
) -> bool {
    &&& step.pre_v_s is None ==> valued(nets, &agent.backend, &agent.critic, step.seen(), v_s)
    &&& step.pre_td_error is None && !step.done ==> valued(
        nets,
        &agent.backend,
        &agent.critic,
        step.seen_next(),
        v_next,
    )
}

/// A step whose TD error is not finite, whatever the critic may say of it, changes nothing but
/// the count. A TD error that was brought along is such an error where it is not finite itself.
pub proof fn unusable_step_changes_nothing<L: LinAlg, N: Networks<L>>(
    nets: &N,
    before: PcActorCritic<L>,
    after: PcActorCritic<L>,
    step: LearnStep<L>,
    result: Result<Scalar, PcError>,
)
    requires
        learned(nets, before, after, step, result),
        forall|v_s: Scalar, v_next: Scalar|
            critic_may_say(nets, before, step, v_s, v_next) ==> !(#[trigger] step.td_error(
                v_s,
                v_next,
            )).finite(),
    ensures
        after == before.counted(step.mode),
        result == Ok::<Scalar, PcError>(Scalar::zero()),
{
    let record: LearnRecord<L> = choose|record: LearnRecord<L>|
        #[trigger] learned_along(nets, before, after, step, result, record);
}

/// A learning step touches neither the champion nor the configuration, the replay memory or the
/// random numbers, whatever the networks answered.
pub proof fn learning_step_spares_the_champion<L: LinAlg, N: Networks<L>>(
    nets: &N,
    before: PcActorCritic<L>,
    after: PcActorCritic<L>,
    step: LearnStep<L>,
    result: Result<Scalar, PcError>,
)
    requires
        learned(nets, before, after, step, result),
    ensures
        after.frozen_champion == before.frozen_champion,
        after.config == before.config,
        after.replay_buffer == before.replay_buffer,
        after.rng == before.rng,
{
    let record: LearnRecord<L> = choose|record: LearnRecord<L>|
        #[trigger] learned_along(nets, before, after, step, result, record);
}

/// A step moves the critic toward the reward plus, unless the episode ended, the discounted value of
/// the observation that followed, at the scale for the size of the TD error, whichever sign that
/// has; and the actor is moved by the TD error: how much more that is than what the critic said.
pub proof fn step_moves_the_critic_toward_its_target<L: LinAlg, N: Networks<L>>(
    rd: Reading,
    nets: &N,
    before: PcActorCritic<L>,
    after: PcActorCritic<L>,
    step: LearnStep<L>,
    result: Result<Scalar, PcError>,
    record: LearnRecord<L>,
    bound: real,
)
    requires
        reads::<L>(rd),
        reads_order(rd),
        learned_along(nets, before, after, step, result, record),
        result is Ok,
        step.pre_td_error is None,
        step.reward.finite(),
        step.gamma.finite(),
        0 as real <= rd.of(step.gamma) <= 1 as real,
        sized(rd.of(step.reward), bound),
        record.v_next.finite(),
        sized(rd.of(record.v_next), bound),
        step.value(record.v_s).finite(),
        sized(rd.of(step.value(record.v_s)), bound),
        bound >= 0 as real,
        bound + bound + bound + rd.slack + rd.slack <= rd.top,
    ensures
        exists|target: Scalar, size: Scalar|
            {
                let meant = rd.of(step.reward) + if step.done {
                    0 as real
                } else {
                    rd.of(step.gamma) * rd.of(record.v_next)
                };
                let off = rd.slack + rd.slack;
                let error = rd.of(record.update.td_error);
                &&& #[trigger] critic_moved(
                    nets,
                    &before.backend,
                    &before.critic,
                    step.seen(),
                    target,
                    before.critic_scale_in(size, step.mode),
                    before.critic_decay_factors@,
                    record.critic,
                )
                &&& rd.shows(target, meant, off)
                &&& rd.shows(
                    record.update.td_error,
                    meant - rd.of(step.value(record.v_s)),
                    off + rd.slack,
                )
                &&& size.finite()
                &&& rd.of(size) == if error < 0 as real {
                    -error
                } else {
                    error
                }
            },
{
    let td_error = step.td_error(record.v_s, record.v_next);
    let target = step.target(record.v_s, record.v_next);
    assert((0 as real) * bound == 0 as real) by (nonlinear_arith);
    target_is_reward_and_discounted_value::<L>(
        rd,
        step,
        record.v_s,
        record.v_next,
        rd.of(step.reward),
        rd.of(step.gamma),
        0 as real,
        0 as real,
        bound,
    );
    assert(record.update.td_error == td_error);
    let size = td_error.magnitude_of();
    assert(Scalar::zero().finite());
    assert(td_error.below(Scalar::zero()) <==> rd.of(td_error) < 0 as real);
    if td_error.bits >= SIGN_BITS {
        assert(size == td_error.negated());
        assert(!Scalar::zero().below(td_error));
    }
    assert(critic_moved(
        nets,
        &before.backend,
        &before.critic,
        step.seen(),
        target,
        before.critic_scale_in(size, step.mode),
        before.critic_decay_factors@,
        record.critic,
    ));
}

} // verus!
