//! Learning from the replay memory from end to end, with the networks called in between.

use vstd::prelude::*;

use crate::error::PcError;
use crate::linalg::LinAlg;
use crate::network_ops::{inferred, valued, Networks};
use crate::networks::InferResult;
use crate::pc_actor_critic::agent::{replay_opt, PcActorCritic};
use crate::pc_actor_critic::fisher::fisher_views;
use crate::pc_actor_critic::learning::{critic_input, LearnStep};
use crate::pc_actor_critic::online::{learned, learned_along, LearnRecord};
use crate::pc_actor_critic::rehearsal::{
    clamped_replay_error, max_replay_td_error, nothing_to_draw, raw_replay_error, replay_draw,
    replayed_error_is_reward_and_discounted_value,
};
use crate::pc_actor_critic::replay::{
    copy_indices, transition_views, Action, ReplayTransition,
};
use crate::pc_actor_critic::scaling::LearnMode;
use crate::pc_actor_critic::stepping::{all_actions, every_action};
use crate::reading::{reads, reads_order, sized, Reading};
use crate::scalar::Scalar;

verus! {

/// The answers that one replayed step got.
pub struct ReplayAnswers<L: LinAlg> {
    /// Inference at the observation.
    pub infer: InferResult<L>,
    /// Inference at the observation that followed.
    pub next_infer: InferResult<L>,
    /// What the critic said of the observation that followed.
    pub v_next: Scalar,
}

impl<L: LinAlg> PcActorCritic<L> {
    /// The actions that were open in a remembered step; without a mask, all of them.
    pub open spec fn open_actions(self, t: ReplayTransition) -> Seq<usize> {
        match t.valid_actions {
            Some(m) => m@,
            None => every_action(self.config.actor.output_size as nat),
        }
    }

    /// The learning step that a remembered one makes, with its value and its clamped TD error
    /// brought along.
    pub open spec fn replays(
        self,
        step: LearnStep<L>,
        t: ReplayTransition,
        action: usize,
        v_s: Scalar,
        td_error: Scalar,
        answers: ReplayAnswers<L>,
    ) -> bool {
        &&& step.state@ == t.state@
        &&& *step.infer == answers.infer
        &&& step.action == action
        &&& step.valid_actions@ == self.open_actions(t)
        &&& step.reward == t.reward
        &&& step.next_state@ == t.next_state@
        &&& *step.next_infer == answers.next_infer
        &&& step.done == t.done
        &&& step.gamma == self.config.gamma
        &&& step.pre_v_s == Some(v_s)
        &&& step.pre_td_error == Some(td_error)
        &&& step.mode == LearnMode::Replay
    }

    /// What the running episode depends on is as it was: count of learning steps, eligibility
    /// trace, importance records, TD errors, the step before and the steps that wait.
    pub open spec fn same_episode(self, other: Self) -> bool {
        &&& self.steps_since_last_rollback_hard == other.steps_since_last_rollback_hard
        &&& self.actor_trace@ == other.actor_trace@
        &&& fisher_views(self.actor_fisher@) == fisher_views(other.actor_fisher@)
        &&& self.critic_fisher == other.critic_fisher
        &&& self.td_error_buffer@ == other.td_error_buffer@
        &&& self.last_td_error == other.last_td_error
        &&& self.state_prev == other.state_prev
        &&& self.action_prev == other.action_prev
        &&& self.infer_prev == other.infer_prev
        &&& self.valid_actions_prev == other.valid_actions_prev
        &&& self.td_buffer == other.td_buffer
        &&& self.actor_plasticity() == other.actor_plasticity()
        &&& self.critic_plasticity() == other.critic_plasticity()
    }

    /// Nothing differs but what learning changes, the random numbers and the count of clamped
    /// TD errors.
    pub open spec fn same_besides_rehearsal(self, other: Self) -> bool {
        self.same_besides_learning(
            PcActorCritic {
                rng: self.rng,
                replay_clamp_count: self.replay_clamp_count,
                ..other
            },
        )
    }
}

/// The critic was asked about a remembered observation.
pub open spec fn transition_valued<L: LinAlg, N: Networks<L>>(
    nets: &N,
    agent: PcActorCritic<L>,
    t: ReplayTransition,
    v: Scalar,
) -> bool {
    exists|infer: InferResult<L>|
        {
            &&& #[trigger] inferred(nets, &agent.backend, &agent.actor, t.state@, infer)
            &&& valued(
                nets,
                &agent.backend,
                &agent.critic,
                t.state@ + L::seq(infer.latent_concat),
                v,
            )
        }
}

/// A remembered step with a discrete action was learned from once more: the actor inferred
/// anew at both observations, the critic was asked anew about the second one, and the TD error
/// against the value given beforehand was clamped.
pub open spec fn replayed_along<L: LinAlg, N: Networks<L>>(
    nets: &N,
    before: PcActorCritic<L>,
    after: PcActorCritic<L>,
    t: ReplayTransition,
    action: usize,
    v_s: Scalar,
    result: Result<Scalar, PcError>,
    answers: ReplayAnswers<L>,
    step: LearnStep<L>,
) -> bool {
    let raw = raw_replay_error::<L>(before.config.gamma, t.reward, t.done, answers.v_next, v_s);
    &&& inferred(nets, &before.backend, &before.actor, t.state@, answers.infer)
    &&& inferred(nets, &before.backend, &before.actor, t.next_state@, answers.next_infer)
    &&& !t.done ==> valued(
        nets,
        &before.backend,
        &before.critic,
        t.next_state@ + L::seq(answers.next_infer.latent_concat),
        answers.v_next,
    )
    &&& before.replays(step, t, action, v_s, clamped_replay_error(raw), answers)
    &&& learned(nets, before.clamp_counted(raw), after, step, result)
}

/// A remembered step was learned from once more, whatever the networks answered. Steps with a
/// vector of numbers for an action are passed over.
pub open spec fn replayed<L: LinAlg, N: Networks<L>>(
    nets: &N,
    before: PcActorCritic<L>,
    after: PcActorCritic<L>,
    t: ReplayTransition,
    v_s: Scalar,
    result: Result<Scalar, PcError>,
) -> bool {
    match t.action {
        Action::Discrete(action) => exists|answers: ReplayAnswers<L>, step: LearnStep<L>|
            #[trigger] replayed_along(
                nets,
                before,
                after,
                t,
                action,
                v_s,
                result,
                answers,
                step,
            ),
        Action::Continuous(_) => after == before && result == Ok::<Scalar, PcError>(
            Scalar::zero(),
        ),
    }
}

/// The course of learning from a batch.
pub struct BatchRecord<L: LinAlg> {
    /// The remembered steps that were drawn.
    pub batch: Seq<ReplayTransition>,
    /// What the critic said of each before the first update.
    pub values: Seq<Scalar>,
    /// What each step came to, up to the first error.
    pub results: Seq<Result<Scalar, PcError>>,
    /// The agent before the first step, between the steps and after the last.
    pub agents: Seq<PcActorCritic<L>>,
}

/// A batch was drawn out of the replay memory, the critic was asked about all of it, and its
/// steps were learned from one after the other, up to the first error.
pub open spec fn batch_learned_along<L: LinAlg, N: Networks<L>>(
    nets: &N,
    before: PcActorCritic<L>,
    after: PcActorCritic<L>,
    batch_size: nat,
    result: Result<(), PcError>,
    record: BatchRecord<L>,
) -> bool {
    let n = record.results.len();
    &&& record.agents.len() == n + 1
    &&& record.agents[0] == (PcActorCritic { rng: record.agents[0].rng, ..before })
    &&& record.agents[n as int] == after
    &&& replay_draw(replay_opt(before.replay_buffer), batch_size, transition_views(record.batch))
    &&& record.values.len() == record.batch.len()
    &&& forall|k: int|
        0 <= k < record.batch.len() ==> transition_valued(
            nets,
            record.agents[0],
            #[trigger] record.batch[k],
            record.values[k],
        )
    &&& n <= record.batch.len()
    &&& forall|k: int|
        0 <= k < n ==> replayed(
            nets,
            record.agents[k],
            record.agents[k + 1],
            record.batch[k],
            record.values[k],
            #[trigger] record.results[k],
        )
    &&& forall|k: int| 0 <= k < n - 1 ==> (#[trigger] record.results[k]) is Ok
    &&& match result {
        Ok(()) => n == record.batch.len() && (n > 0 ==> record.results[n - 1] is Ok),
        Err(e) => n > 0 && record.results[n - 1] == Err::<Scalar, PcError>(e),
    }
}

/// A batch was learned from, whatever the networks answered.
pub open spec fn batch_learned<L: LinAlg, N: Networks<L>>(
    nets: &N,
    before: PcActorCritic<L>,
    after: PcActorCritic<L>,
    batch_size: nat,
    result: Result<(), PcError>,
) -> bool {
    exists|record: BatchRecord<L>|
        #[trigger] batch_learned_along(nets, before, after, batch_size, result, record)
}

/// A replayed step leaves the running episode alone, whatever the networks answered.
pub proof fn replayed_step_spares_the_episode<L: LinAlg, N: Networks<L>>(
    nets: &N,
    before: PcActorCritic<L>,
    after: PcActorCritic<L>,
    step: LearnStep<L>,
    result: Result<Scalar, PcError>,
)
    requires
        step.mode == LearnMode::Replay,
        learned(nets, before, after, step, result),
    ensures
        after.same_episode(before),
{
    let record: LearnRecord<L> = choose|record: LearnRecord<L>|
        #[trigger] learned_along(nets, before, after, step, result, record);
}

impl<L: LinAlg> PcActorCritic<L> {
    fn ask_remembered<N: Networks<L>>(&self, nets: &N, batch: &Vec<ReplayTransition>) -> (r: Vec<
        Scalar,
    >)
        ensures
            r@.len() == batch@.len(),
            forall|k: int|
                0 <= k < batch@.len() ==> transition_valued(
                    nets,
                    *self,
                    #[trigger] batch@[k],
                    r@[k],
                ),
    {
        let mut values: Vec<Scalar> = Vec::new();
        let mut k: usize = 0;
        while k < batch.len()
            invariant
                k <= batch@.len(),
                values@.len() == k,
                forall|j: int|
                    0 <= j < k ==> transition_valued(
                        nets,
                        *self,
                        #[trigger] batch@[j],
                        values@[j],
                    ),
            decreases batch@.len() - k,
        {
            let state = batch[k].state.as_slice();
            let infer = nets.infer(&self.backend, &self.actor, state);
            let input = critic_input(&self.backend, state, &infer.latent_concat);
            let v = nets.value(&self.backend, &self.critic, input.as_slice());
            assert(inferred(nets, &self.backend, &self.actor, state@, infer));
            assert(transition_valued(nets, *self, batch@[k as int], v));
            values.push(v);
            k = k + 1;
        }
        values
    }

    /// Learns once more from a remembered step, given what the critic said of it.
    pub fn replay_one<N: Networks<L>>(
        &mut self,
        nets: &N,
        t: &ReplayTransition,
        v_s: Scalar,
    ) -> (r: Result<Scalar, PcError>)
        ensures
            replayed(nets, *old(self), *final(self), *t, v_s, r),
            final(self).same_besides_rehearsal(*old(self)),
            final(self).same_episode(*old(self)),
            final(self).replay_buffer == old(self).replay_buffer,
            old(self).importance_fits() ==> final(self).importance_fits(),
            old(self).anchors_fit() ==> final(self).anchors_fit(),
    {
        let ghost before = *self;
        let action: usize = match &t.action {
            Action::Discrete(a) => *a,
            Action::Continuous(_) => {
                return Ok(Scalar::zero());
            },
        };
        let infer = nets.infer(&self.backend, &self.actor, t.state.as_slice());
        let next_infer = nets.infer(&self.backend, &self.actor, t.next_state.as_slice());
        let v_next = if t.done {
            Scalar::zero()
        } else {
            let input = critic_input(
                &self.backend,
                t.next_state.as_slice(),
                &next_infer.latent_concat,
            );
            nets.value(&self.backend, &self.critic, input.as_slice())
        };
        let td_error = self.clamp_replay_error(t.reward, t.done, v_next, v_s);
        let valid = match &t.valid_actions {
            Some(m) => copy_indices(m),
            None => all_actions(self.config.actor.output_size),
        };
        let gamma = self.config.gamma;
        let step = LearnStep::replayed(
            t,
            &infer,
            action,
            valid.as_slice(),
            &next_infer,
            gamma,
            v_s,
            td_error,
        );
        let ghost counted = *self;
        let result = self.learn_continuous_inner(nets, &step);
        proof {
            let answers = ReplayAnswers { infer, next_infer, v_next };
            assert(replayed_along(
                nets,
                before,
                *self,
                *t,
                action,
                v_s,
                result,
                answers,
                step,
            ));
            replayed_step_spares_the_episode(nets, counted, *self, step, result);
        }
        result
    }

    /// Learns once more from a batch of remembered steps. Does nothing where there is no replay
    /// memory, nothing in it or nothing asked for. The champion is never touched.
    pub fn replay_learn<N: Networks<L>>(&mut self, nets: &N, batch_size: usize) -> (r: Result<
        (),
        PcError,
    >)
        ensures
            batch_learned(nets, *old(self), *final(self), batch_size as nat, r),
            nothing_to_draw(replay_opt(old(self).replay_buffer), batch_size as nat) ==> r is Ok
                && *final(self) == *old(self),
            final(self).same_besides_rehearsal(*old(self)),
            final(self).frozen_champion == old(self).frozen_champion,
            final(self).same_episode(*old(self)),
            final(self).replay_buffer == old(self).replay_buffer,
            old(self).importance_fits() ==> final(self).importance_fits(),
            old(self).anchors_fit() ==> final(self).anchors_fit(),
    {
        let batch = self.sample_replay_batch(batch_size);
        let ghost drawn = *self;
        let values = self.ask_remembered(nets, &batch);
        let ghost mut agents: Seq<PcActorCritic<L>> = seq![*self];
        let ghost mut results: Seq<Result<Scalar, PcError>> = Seq::empty();
        let n: usize = batch.len();
        let mut k: usize = 0;
        while k < n
            invariant
                k <= n,
                n == batch@.len(),
                values@.len() == n,
                drawn == (PcActorCritic { rng: drawn.rng, ..*old(self) }),
                replay_draw(
                    replay_opt(old(self).replay_buffer),
                    batch_size as nat,
                    transition_views(batch@),
                ),
                forall|j: int|
                    0 <= j < n ==> transition_valued(
                        nets,
                        drawn,
                        #[trigger] batch@[j],
                        values@[j],
                    ),
                agents.len() == k + 1,
                agents[0] == drawn,
                agents[k as int] == *self,
                results.len() == k,
                forall|j: int|
                    0 <= j < k ==> replayed(
                        nets,
                        agents[j],
                        agents[j + 1],
                        batch@[j],
                        values@[j],
                        #[trigger] results[j],
                    ),
                forall|j: int| 0 <= j < k ==> (#[trigger] results[j]) is Ok,
                nothing_to_draw(replay_opt(old(self).replay_buffer), batch_size as nat) ==> n == 0
                    && drawn == *old(self),
                self.same_besides_rehearsal(*old(self)),
                self.same_episode(*old(self)),
                self.replay_buffer == old(self).replay_buffer,
                old(self).importance_fits() ==> self.importance_fits(),
                old(self).anchors_fit() ==> self.anchors_fit(),
            decreases n - k,
        {
            let result = self.replay_one(nets, &batch[k], values[k]);
            proof {
                let grown = agents.push(*self);
                let longer = results.push(result);
                assert forall|j: int| 0 <= j < k + 1 implies replayed(
                    nets,
                    grown[j],
                    grown[j + 1],
                    batch@[j],
                    values@[j],
                    #[trigger] longer[j],
                ) by {
                    if j < k {
                        assert(longer[j] == results[j]);
                        assert(grown[j] == agents[j]);
                        assert(grown[j + 1] == agents[j + 1]);
                    }
                }
                assert forall|j: int| 0 <= j < k implies (#[trigger] longer[j]) is Ok by {
                    assert(longer[j] == results[j]);
                }
                agents = grown;
                results = longer;
            }
            match result {
                Ok(_) => {},
                Err(e) => {
                    proof {
                        let record =
                            BatchRecord { batch: batch@, values: values@, results, agents };
                        assert(batch_learned_along(
                            nets,
                            *old(self),
                            *self,
                            batch_size as nat,
                            Err::<(), PcError>(e),
                            record,
                        ));
                    }
                    return Err(e);
                },
            }
            k = k + 1;
        }
        proof {
            let record = BatchRecord { batch: batch@, values: values@, results, agents };
            assert(batch_learned_along(
                nets,
                *old(self),
                *self,
                batch_size as nat,
                Ok::<(), PcError>(()),
                record,
            ));
        }
        Ok(())
    }
}

/// A remembered step is learned from with the TD error that it has now: its reward plus, unless
/// its episode ended there, the discounted value of the observation that followed, less the value
/// of the observation, wherever that is within the clamp. The critic is moved toward the value by
/// which that error is measured.
pub proof fn replayed_step_has_its_own_error<L: LinAlg, N: Networks<L>>(
    rd: Reading,
    nets: &N,
    before: PcActorCritic<L>,
    after: PcActorCritic<L>,
    t: ReplayTransition,
    action: usize,
    v_s: Scalar,
    result: Result<Scalar, PcError>,
    answers: ReplayAnswers<L>,
    step: LearnStep<L>,
    bound: real,
)
    requires
        reads::<L>(rd),
        reads_order(rd),
        replayed_along(nets, before, after, t, action, v_s, result, answers, step),
        before.config.gamma.finite(),
        0 as real <= rd.of(before.config.gamma) <= 1 as real,
        t.reward.finite(),
        answers.v_next.finite(),
        v_s.finite(),
        sized(rd.of(t.reward), bound),
        sized(rd.of(answers.v_next), bound),
        sized(rd.of(v_s), bound),
        bound >= 0 as real,
        bound + bound + bound + bound + rd.slack + rd.slack + rd.slack <= rd.top,
        ({
            let next = if t.done {
                0 as real
            } else {
                rd.of(before.config.gamma) * rd.of(answers.v_next)
            };
            sized(
                rd.of(t.reward) + next - rd.of(v_s),
                rd.of(max_replay_td_error()) - rd.slack - rd.slack - rd.slack,
            )
        }),
    ensures
        ({
            let next = if t.done {
                0 as real
            } else {
                rd.of(before.config.gamma) * rd.of(answers.v_next)
            };
            let off = rd.slack + rd.slack + rd.slack;
            &&& step.mode == LearnMode::Replay
            &&& rd.shows(
                step.td_error(v_s, answers.v_next),
                rd.of(t.reward) + next - rd.of(v_s),
                off,
            )
            &&& rd.shows(
                step.target(v_s, answers.v_next),
                rd.of(t.reward) + next,
                off + rd.slack,
            )
        }),
{
    let gamma = before.config.gamma;
    let g = rd.of(gamma);
    let v = rd.of(answers.v_next);
    let raw = raw_replay_error::<L>(gamma, t.reward, t.done, answers.v_next, v_s);
    replayed_error_is_reward_and_discounted_value::<L>(
        rd,
        gamma,
        t.reward,
        t.done,
        answers.v_next,
        v_s,
        bound,
    );
    assert(sized(g * v, bound)) by (nonlinear_arith)
        requires
            0 as real <= g <= 1 as real,
            sized(v, bound),
            bound >= 0 as real,
    ;
    let c = max_replay_td_error();
    assert(c.finite() && c.negated().finite());
    assert(rd.of(c.negated()) == -rd.of(c));
    assert(!raw.below(c.negated()));
    assert(!c.below(raw));
    assert(clamped_replay_error(raw) == raw);
    assert(step.value(v_s) == v_s);
}

} // verus!
