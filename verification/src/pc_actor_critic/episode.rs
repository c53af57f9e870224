//! Learning from a finished episode.

use vstd::prelude::*;

use crate::linalg::LinAlg;
use crate::network_ops::{actor_moved, critic_fitted, valued, Networks};
use crate::networks::{seq_opt, InferResult, MlpCritic, PcActor};
use crate::numeric::{mean_is_sum_over_number, sum, total};
use crate::pc_actor_critic::agent::PcActorCritic;
use crate::pc_actor_critic::discounting::{
    all_returns, compute_returns, discounted_is_sized, discounted_sum,
    returns_discount_what_lies_ahead,
};
use crate::pc_actor_critic::fitting::{
    actor_kept, critic_kept, keep_actor, keep_critic, replacing_keeps_anchors,
    replacing_keeps_importance,
};
use crate::pc_actor_critic::learning::{critic_input, ActorUpdate, LearnStep};
use crate::pc_actor_critic::policy::{
    all_below, direction, policy_direction, probabilities, spread, spread_out, weigh, weighted,
};
use crate::pc_actor_critic::scaling::learning_scale;
use crate::pc_actor_critic::trajectory::{vector_views, TrajectoryStep};
use crate::reading::{difference_shows, near, reads, reads_quotients, real_sum, sized, Reading};
use crate::scalar::Scalar;

verus! {

/// The rewards of an episode.
pub open spec fn rewards_of<L: LinAlg>(trajectory: Seq<TrajectoryStep<L>>) -> Seq<Scalar> {
    trajectory.map_values(|s: TrajectoryStep<L>| s.reward)
}

/// The average critic loss of an episode; nothing for an episode without steps.
pub open spec fn average_loss<L: LinAlg>(losses: Seq<Scalar>) -> Scalar {
    if losses.len() == 0 {
        Scalar::zero()
    } else {
        L::over(total::<L>(losses), L::count(losses.len()))
    }
}

/// The average critic loss of an episode.
pub fn episode_loss<L: LinAlg>(losses: &[Scalar]) -> (r: Scalar)
    ensures
        r == average_loss::<L>(losses@),
{
    if losses.len() == 0 {
        Scalar::zero()
    } else {
        L::scalar_div(sum::<L>(losses), L::scalar_from_count(losses.len() as u64))
    }
}

/// The action taken and the open ones are all among the actor's outputs.
pub open spec fn step_sound<L: LinAlg>(step: TrajectoryStep<L>) -> bool {
    &&& step.action < L::seq(step.y_conv).len()
    &&& all_below(step.valid_actions@, L::seq(step.y_conv).len())
}

/// The surprise of an episode step was remembered; nothing else changed.
pub open spec fn episode_step_kept<L: LinAlg>(
    before: PcActorCritic<L>,
    after: PcActorCritic<L>,
    step: TrajectoryStep<L>,
) -> bool {
    &&& after.surprise_buffer@ == before.surprises_after(step.surprise_score)
    &&& after == (PcActorCritic { surprise_buffer: after.surprise_buffer, ..before })
}

/// What each vector that may be absent holds.
pub open spec fn vector_opts<L: LinAlg>(v: Seq<Option<L::Vector>>) -> Seq<Option<Seq<Scalar>>> {
    v.map_values(|x: Option<L::Vector>| seq_opt::<L>(x))
}

impl<L: LinAlg> TrajectoryStep<L> {
    /// Inference results that say what the step recorded.
    pub open spec fn restated(self, infer: InferResult<L>) -> bool {
        &&& L::seq(infer.y_conv) == L::seq(self.y_conv)
        &&& L::seq(infer.latent_concat) == L::seq(self.latent_concat)
        &&& vector_views::<L>(infer.hidden_states@) == vector_views::<L>(self.hidden_states@)
        &&& vector_views::<L>(infer.prediction_errors@) == vector_views::<L>(
            self.prediction_errors@,
        )
        &&& infer.surprise_score == self.surprise_score
        &&& infer.steps_used == self.steps_used
        &&& !infer.converged
        &&& vector_opts::<L>(infer.tanh_components@) == vector_opts::<L>(self.tanh_components@)
    }

    /// The step's record as inference results.
    pub fn stored_infer(&self) -> (r: InferResult<L>)
        ensures
            self.restated(r),
    {
        InferResult {
            y_conv: L::vec_clone(&self.y_conv),
            latent_concat: L::vec_clone(&self.latent_concat),
            hidden_states: copy_vectors::<L>(&self.hidden_states),
            prediction_errors: copy_vectors::<L>(&self.prediction_errors),
            surprise_score: self.surprise_score,
            steps_used: self.steps_used,
            converged: false,
            tanh_components: copy_optional::<L>(&self.tanh_components),
        }
    }
}

fn copy_vectors<L: LinAlg>(v: &Vec<L::Vector>) -> (r: Vec<L::Vector>)
    ensures
        vector_views::<L>(r@) == vector_views::<L>(v@),
{
    let mut out: Vec<L::Vector> = Vec::new();
    let mut i: usize = 0;
    while i < v.len()
        invariant
            i <= v@.len(),
            out@.len() == i,
            forall|j: int| 0 <= j < i ==> L::seq(#[trigger] out@[j]) == L::seq(v@[j]),
        decreases v@.len() - i,
    {
        out.push(L::vec_clone(&v[i]));
        i = i + 1;
    }
    assert(vector_views::<L>(out@) =~= vector_views::<L>(v@));
    out
}

fn copy_optional<L: LinAlg>(v: &Vec<Option<L::Vector>>) -> (r: Vec<Option<L::Vector>>)
    ensures
        vector_opts::<L>(r@) == vector_opts::<L>(v@),
{
    let mut out: Vec<Option<L::Vector>> = Vec::new();
    let mut i: usize = 0;
    while i < v.len()
        invariant
            i <= v@.len(),
            out@.len() == i,
            forall|j: int| 0 <= j < i ==> seq_opt::<L>(#[trigger] out@[j]) == seq_opt::<L>(v@[j]),
        decreases v@.len() - i,
    {
        let x = match &v[i] {
            Some(x) => Some(L::vec_clone(x)),
            None => None,
        };
        assert(seq_opt::<L>(x) == seq_opt::<L>(v@[i as int]));
        out.push(x);
        i = i + 1;
    }
    assert(vector_opts::<L>(out@) =~= vector_opts::<L>(v@));
    out
}

/// The answers that one episode step got, and what it made of them.
pub struct EpisodeAnswers<L: LinAlg> {
    /// What the critic said of the observation.
    pub value: Scalar,
    /// The critic that came back, and its loss.
    pub critic: (MlpCritic<L>, Scalar),
    /// The planned update of the actor.
    pub update: ActorUpdate<L>,
    /// The inference results handed over.
    pub infer: InferResult<L>,
    /// The actor that came back.
    pub actor: PcActor<L>,
}

/// An episode step was learned from: the critic moves toward the step's return, the actor along
/// the advantage of that return over what the critic said. A network that came back in another
/// shape is not kept.
pub open spec fn episode_step_learned<L: LinAlg, N: Networks<L>>(
    nets: &N,
    before: PcActorCritic<L>,
    after: PcActorCritic<L>,
    step: TrajectoryStep<L>,
    episode_return: Scalar,
    loss: Scalar,
    answers: EpisodeAnswers<L>,
) -> bool {
    let seen = L::seq(step.input) + L::seq(step.latent_concat);
    let valuing = PcActorCritic { critic: critic_kept(answers.critic.0, before.critic), ..before };
    &&& valued(nets, &before.backend, &before.critic, seen, answers.value)
    &&& critic_fitted(
        nets,
        &before.backend,
        &before.critic,
        seen,
        episode_return,
        answers.critic,
    )
    &&& loss == answers.critic.1
    &&& valuing.episode_planned(step, episode_return, answers.value, answers.update)
    &&& step.restated(answers.infer)
    &&& actor_moved(
        nets,
        &before.backend,
        &before.actor,
        answers.update.delta@,
        &answers.infer,
        L::seq(step.input),
        answers.update.scale,
        answers.update.decay@,
        answers.actor,
    )
    &&& episode_step_kept(
        PcActorCritic { actor: actor_kept(answers.actor, before.actor), ..valuing },
        after,
        step,
    )
}

/// The course of learning from an episode.
pub struct EpisodeRecord<L: LinAlg> {
    /// The agent before the first step, between the steps and after the last.
    pub agents: Seq<PcActorCritic<L>>,
    /// What each step got.
    pub answers: Seq<EpisodeAnswers<L>>,
    /// The critic's loss on each step.
    pub losses: Seq<Scalar>,
}

/// The steps of an episode were learned from in order, each with its discounted return, and
/// `r` is the average loss.
pub open spec fn episode_learned_along<L: LinAlg, N: Networks<L>>(
    nets: &N,
    before: PcActorCritic<L>,
    after: PcActorCritic<L>,
    trajectory: Seq<TrajectoryStep<L>>,
    r: Scalar,
    record: EpisodeRecord<L>,
) -> bool {
    let n = trajectory.len();
    &&& record.agents.len() == n + 1
    &&& record.agents[0] == before
    &&& record.agents[n as int] == after
    &&& record.answers.len() == n
    &&& record.losses.len() == n
    &&& forall|k: int|
        0 <= k < n ==> episode_step_learned(
            nets,
            record.agents[k],
            record.agents[k + 1],
            #[trigger] trajectory[k],
            all_returns::<L>(before.config.gamma, rewards_of(trajectory), None)[k],
            record.losses[k],
            record.answers[k],
        )
    &&& r == average_loss::<L>(record.losses)
}

/// An episode was learned from, whatever the networks answered.
pub open spec fn episode_learned<L: LinAlg, N: Networks<L>>(
    nets: &N,
    before: PcActorCritic<L>,
    after: PcActorCritic<L>,
    trajectory: Seq<TrajectoryStep<L>>,
    r: Scalar,
) -> bool {
    exists|record: EpisodeRecord<L>|
        #[trigger] episode_learned_along(nets, before, after, trajectory, r, record)
}

impl<L: LinAlg> PcActorCritic<L> {
    /// Nothing differs but what learning from an episode changes: the networks and what is
    /// remembered of surprise.
    pub open spec fn same_besides_episode(self, other: Self) -> bool {
        self == (PcActorCritic {
            actor: self.actor,
            critic: self.critic,
            surprise_buffer: self.surprise_buffer,
            ..other
        })
    }

    /// The policy gradient of an episode step, without an eligibility trace.
    pub open spec fn episode_gradient(self, step: TrajectoryStep<L>, advantage: Scalar) -> Seq<
        Scalar,
    > {
        let pi = self.policy(L::seq(step.y_conv), step.valid_actions@);
        spread_out::<L>(
            weighted::<L>(
                direction::<L>(pi, step.valid_actions@, step.action),
                step.valid_actions@,
                advantage,
            ),
            pi,
            step.valid_actions@,
            self.config.entropy_coeff,
        )
    }

    /// How the actor is to be updated on an episode step.
    pub open spec fn episode_planned(
        self,
        step: TrajectoryStep<L>,
        episode_return: Scalar,
        value: Scalar,
        update: ActorUpdate<L>,
    ) -> bool {
        let advantage = L::minus(episode_return, value);
        &&& update.td_error == advantage
        &&& update.delta@ == self.episode_gradient(step, advantage)
        &&& update.scale == learning_scale::<L>(
            self.config,
            self.surprise_buffer@,
            step.surprise_score,
        )
        &&& update.decay@ == self.actor_decay()
        &&& update.before is None
    }

    /// The discounted return from every step of an episode.
    pub fn episode_returns(&self, trajectory: &[TrajectoryStep<L>]) -> (r: Vec<Scalar>)
        ensures
            r@ == all_returns::<L>(self.config.gamma, rewards_of(trajectory@), None),
    {
        let mut rewards: Vec<Scalar> = Vec::new();
        let mut i: usize = 0;
        while i < trajectory.len()
            invariant
                i <= trajectory@.len(),
                rewards@.len() == i,
                forall|j: int| 0 <= j < i ==> rewards@[j] == trajectory@[j].reward,
            decreases trajectory@.len() - i,
        {
            rewards.push(trajectory[i].reward);
            i = i + 1;
        }
        assert(rewards@ =~= rewards_of(trajectory@));
        compute_returns::<L>(self.config.gamma, rewards.as_slice(), None)
    }

    /// Says how the actor is to be updated on an episode step, given the step's return and
    /// what the critic said of it.
    pub fn plan_episode_update(
        &self,
        step: &TrajectoryStep<L>,
        episode_return: Scalar,
        value: Scalar,
    ) -> (r: ActorUpdate<L>)
        requires
            step_sound(*step),
        ensures
            self.episode_planned(*step, episode_return, value, r),
    {
        let advantage = L::scalar_sub(episode_return, value);
        let logits = self.backend.vec_to_vec(&step.y_conv);
        let pi = probabilities(
            &self.backend,
            logits.as_slice(),
            step.valid_actions.as_slice(),
            self.actor.config.temperature,
        );
        let mut delta = policy_direction::<L>(
            pi.as_slice(),
            step.valid_actions.as_slice(),
            step.action,
        );
        weigh::<L>(&mut delta, step.valid_actions.as_slice(), advantage);
        spread::<L>(
            &mut delta,
            pi.as_slice(),
            step.valid_actions.as_slice(),
            self.config.entropy_coeff,
        );
        let scale = self.surprise_scale(step.surprise_score);
        let decay = self.effective_actor_decay();
        ActorUpdate { td_error: advantage, delta, scale, decay, before: None }
    }

    /// Remembers the surprise of an episode step that was learned from.
    pub fn finish_episode_update(&mut self, step: &TrajectoryStep<L>)
        ensures
            episode_step_kept(*old(self), *final(self), *step),
    {
        if self.config.adaptive_surprise {
            self.push_surprise(step.surprise_score);
        }
    }

    fn learn_episode_step<N: Networks<L>>(
        &mut self,
        nets: &N,
        step: &TrajectoryStep<L>,
        episode_return: Scalar,
    ) -> (r: (Scalar, Ghost<EpisodeAnswers<L>>))
        requires
            step_sound(*step),
        ensures
            episode_step_learned(
                nets,
                *old(self),
                *final(self),
                *step,
                episode_return,
                r.0,
                r.1@,
            ),
            old(self).importance_fits() ==> final(self).importance_fits(),
            old(self).anchors_fit() ==> final(self).anchors_fit(),
    {
        let ghost before = *self;
        let state = self.backend.vec_to_vec(&step.input);
        let input = critic_input(&self.backend, state.as_slice(), &step.latent_concat);
        let value = nets.value(&self.backend, &self.critic, input.as_slice());
        let (critic, loss) = nets.fit_critic(
            &self.backend,
            &self.critic,
            input.as_slice(),
            episode_return,
        );
        keep_critic(&self.backend, &mut self.critic, critic);
        let update = self.plan_episode_update(step, episode_return, value);
        let infer = step.stored_infer();
        let actor = nets.move_actor(
            &self.backend,
            &self.actor,
            update.delta.as_slice(),
            &infer,
            state.as_slice(),
            update.scale,
            update.decay.as_slice(),
        );
        keep_actor(&self.backend, &mut self.actor, actor);
        self.finish_episode_update(step);
        proof {
            if before.importance_fits() {
                replacing_keeps_importance(before, *self);
            }
            if before.anchors_fit() {
                replacing_keeps_anchors(before, *self);
            }
        }
        let answers = Ghost(
            EpisodeAnswers { value, critic: (critic, loss), update, infer, actor },
        );
        (loss, answers)
    }

    /// Learns from a finished episode; gives the average loss of the critic. The champion is
    /// never touched.
    pub fn learn<N: Networks<L>>(&mut self, nets: &N, trajectory: &[TrajectoryStep<L>]) -> (r:
        Scalar)
        requires
            forall|k: int| 0 <= k < trajectory@.len() ==> step_sound(#[trigger] trajectory@[k]),
        ensures
            episode_learned(nets, *old(self), *final(self), trajectory@, r),
            trajectory@.len() == 0 ==> r == Scalar::zero() && *final(self) == *old(self),
            final(self).same_besides_episode(*old(self)),
            final(self).frozen_champion == old(self).frozen_champion,
            old(self).importance_fits() ==> final(self).importance_fits(),
            old(self).anchors_fit() ==> final(self).anchors_fit(),
    {
        let totals = self.episode_returns(trajectory);
        let mut losses: Vec<Scalar> = Vec::new();
        let ghost mut agents: Seq<PcActorCritic<L>> = seq![*self];
        let ghost mut answers: Seq<EpisodeAnswers<L>> = Seq::empty();
        let n: usize = trajectory.len();
        let mut k: usize = 0;
        while k < n
            invariant
                k <= n,
                n == trajectory@.len(),
                forall|j: int| 0 <= j < n ==> step_sound(#[trigger] trajectory@[j]),
                totals@ == all_returns::<L>(
                    old(self).config.gamma,
                    rewards_of(trajectory@),
                    None,
                ),
                totals@.len() == n,
                agents.len() == k + 1,
                agents[0] == *old(self),
                agents[k as int] == *self,
                answers.len() == k,
                losses@.len() == k,
                self.same_besides_episode(*old(self)),
                old(self).importance_fits() ==> self.importance_fits(),
                old(self).anchors_fit() ==> self.anchors_fit(),
                forall|j: int|
                    0 <= j < k ==> episode_step_learned(
                        nets,
                        agents[j],
                        agents[j + 1],
                        #[trigger] trajectory@[j],
                        totals@[j],
                        losses@[j],
                        answers[j],
                    ),
            decreases n - k,
        {
            let ghost before = *self;
            let ghost earlier = losses@;
            let (loss, answer) = self.learn_episode_step(nets, &trajectory[k], totals[k]);
            losses.push(loss);
            proof {
                let grown = agents.push(*self);
                let longer = answers.push(answer@);
                assert forall|j: int| 0 <= j < k + 1 implies episode_step_learned(
                    nets,
                    grown[j],
                    grown[j + 1],
                    #[trigger] trajectory@[j],
                    totals@[j],
                    losses@[j],
                    longer[j],
                ) by {
                    if j < k {
                        assert(grown[j] == agents[j]);
                        assert(grown[j + 1] == agents[j + 1]);
                        assert(longer[j] == answers[j]);
                        assert(losses@[j] == earlier[j]);
                    }
                }
                agents = grown;
                answers = longer;
            }
            k = k + 1;
        }
        let r = episode_loss::<L>(losses.as_slice());
        proof {
            let record = EpisodeRecord { agents, answers, losses: losses@ };
            assert(episode_learned_along(
                nets,
                *old(self),
                *self,
                trajectory@,
                r,
                record,
            ));
        }
        r
    }
}

/// A finished episode moves the critic, step by step, toward the discounted sum of the rewards from
/// the step on, at the discount that the configuration gives, and the actor's error is how much more
/// that is than what the critic said.
pub proof fn episode_is_learned_from_its_returns<L: LinAlg, N: Networks<L>>(
    rd: Reading,
    nets: &N,
    before: PcActorCritic<L>,
    after: PcActorCritic<L>,
    trajectory: Seq<TrajectoryStep<L>>,
    r: Scalar,
    record: EpisodeRecord<L>,
    k: int,
    bound: real,
)
    requires
        reads::<L>(rd),
        episode_learned_along(nets, before, after, trajectory, r, record),
        0 <= k < trajectory.len(),
        before.config.gamma.finite(),
        0 as real <= rd.of(before.config.gamma) <= 1 as real,
        rd.bounds(rewards_of(trajectory), bound),
        bound >= 0 as real,
        record.answers[k].value.finite(),
        sized(rd.of(record.answers[k].value), bound),
        (bound + rd.slack + rd.slack) * ((trajectory.len() + 1) as real) <= rd.top,
    ensures
        exists|target: Scalar|
            {
                let ahead = discounted_sum(
                    rd.of(before.config.gamma),
                    rd.all(rewards_of(trajectory).skip(k)),
                );
                let off = (rd.slack + rd.slack) * ((trajectory.len() - k) as real);
                &&& rd.shows(target, ahead, off)
                &&& #[trigger] critic_fitted(
                    nets,
                    &record.agents[k].backend,
                    &record.agents[k].critic,
                    L::seq(trajectory[k].input) + L::seq(trajectory[k].latent_concat),
                    target,
                    record.answers[k].critic,
                )
                &&& rd.shows(
                    record.answers[k].update.td_error,
                    ahead - rd.of(record.answers[k].value),
                    off + rd.slack,
                )
            },
{
    let rewards = rewards_of(trajectory);
    let gamma = before.config.gamma;
    let g = rd.of(gamma);
    let s = rd.slack;
    returns_discount_what_lies_ahead::<L>(rd, gamma, rewards, None, k, bound);
    let target = all_returns::<L>(gamma, rewards, None)[k];
    let step = trajectory[k];
    assert(episode_step_learned(
        nets,
        record.agents[k],
        record.agents[k + 1],
        step,
        target,
        record.losses[k],
        record.answers[k],
    ));
    let ahead = discounted_sum(g, rd.all(rewards.skip(k)));
    let xs = rd.all(rewards.skip(k));
    assert forall|i: int| 0 <= i < xs.len() implies sized(#[trigger] xs[i], bound) by {
        assert(rewards[k + i].finite());
    }
    discounted_is_sized(g, xs, bound);
    let m = (trajectory.len() - k) as real;
    let n = (trajectory.len() + 1) as real;
    assert(bound * m + bound + (s + s) * m <= (bound + s + s) * n) by (nonlinear_arith)
        requires
            n >= m + 1 as real,
            m >= 0 as real,
            s >= 0 as real,
            bound >= 0 as real,
    ;
    let value = record.answers[k].value;
    difference_shows::<L>(rd, target, value, ahead, rd.of(value), (s + s) * m, 0 as real);
    assert(critic_fitted(
        nets,
        &record.agents[k].backend,
        &record.agents[k].critic,
        L::seq(step.input) + L::seq(step.latent_concat),
        target,
        record.answers[k].critic,
    ));
}

/// The loss that an episode reports is the average of the losses of its steps.
pub proof fn episode_loss_is_the_average<L: LinAlg>(rd: Reading, losses: Seq<Scalar>, bound: real)
    requires
        reads::<L>(rd),
        reads_quotients::<L>(rd),
        losses.len() > 0,
        rd.bounds(losses, bound),
        bound >= 0 as real,
        (bound + rd.slack) * (losses.len() as real) <= rd.top,
        losses.len() as real <= rd.top,
    ensures
        average_loss::<L>(losses).finite(),
        near(
            rd.of(average_loss::<L>(losses)) * (losses.len() as real),
            real_sum(rd.all(losses)),
            (rd.slack + rd.slack) * (losses.len() as real),
        ),
{
    mean_is_sum_over_number::<L>(rd, losses, bound);
}

/// A step of a finished episode moves the actor along the same gradient as a step of a running one
/// with the same output, open actions and error, where no trace is kept.
pub proof fn episode_step_has_the_online_gradient<L: LinAlg>(
    agent: PcActorCritic<L>,
    recorded: TrajectoryStep<L>,
    running: LearnStep<L>,
    error: Scalar,
)
    requires
        agent.config.gae_lambda is None,
        running.logits() == L::seq(recorded.y_conv),
        running.valid_actions@ == recorded.valid_actions@,
        running.action == recorded.action,
    ensures
        agent.episode_gradient(recorded, error) == agent.policy_gradient(running, error),
{
}

} // verus!
