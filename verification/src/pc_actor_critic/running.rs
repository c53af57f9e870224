//! Step-by-step operation from end to end, with the networks called in between.

use rand::rngs::StdRng;
use vstd::prelude::*;
use vstd::slice::slice_to_vec;

use crate::error::PcError;
use crate::linalg::LinAlg;
use crate::network_ops::{
    chooses_open_actions, inferred, selected, valued, Networks, SelectionMode,
};
use crate::networks::{layer_views, InferResult, LayerView};
use crate::pc_actor_critic::agent::{replay_opt, PcActorCritic};
use crate::pc_actor_critic::discounting::{discounted_is_sized, discounted_sum, return_error};
use crate::pc_actor_critic::fisher::fisher_views;
use crate::pc_actor_critic::fitting::records_fit;
use crate::pc_actor_critic::learning::{
    critic_input, target_is_reward_and_discounted_value, LearnStep,
};
use crate::pc_actor_critic::online::learned;
use crate::pc_actor_critic::plasticity::{plasticity_step, steps_keep_records_in_shape};
use crate::pc_actor_critic::replay::{ActionView, TransitionView};
use crate::pc_actor_critic::scaling::LearnMode;
use crate::pc_actor_critic::stepping::{
    all_actions, check_mask, every_action, learning_planned, previous_taken, replay_with,
    returns_and_discounts_agree, rewards_in_play, settled, step_kept, step_recorded, LearningJob,
    LearningPlan, PreviousStep,
};
use crate::reading::{reads, real_pow, sized, Reading};
use crate::scalar::Scalar;

verus! {

impl<L: LinAlg> LearningJob<L> {
    /// What the critic is asked about the step.
    pub open spec fn seen(self) -> Seq<Scalar> {
        L::seq(self.transition.state) + L::seq(self.transition.infer.latent_concat)
    }

    /// The learning step that the update stands for. It bootstraps from the observation at
    /// hand, and brings its value along where the critic was asked beforehand.
    pub open spec fn makes(
        self,
        step: LearnStep<L>,
        value: Option<Scalar>,
        next_state: Seq<Scalar>,
        current: InferResult<L>,
    ) -> bool {
        &&& step.state@ == L::seq(self.transition.state)
        &&& *step.infer == self.transition.infer
        &&& step.action == self.transition.action
        &&& step.valid_actions@ == self.transition.valid_actions@
        &&& step.reward == self.reward
        &&& step.next_state@ == next_state
        &&& *step.next_infer == current
        &&& step.done == self.done
        &&& step.gamma == self.gamma
        &&& step.pre_v_s == value
        &&& step.pre_td_error is None
        &&& step.mode == LearnMode::Online
    }
}

/// An update was made and settled.
pub open spec fn job_done<L: LinAlg, N: Networks<L>>(
    nets: &N,
    before: PcActorCritic<L>,
    after: PcActorCritic<L>,
    job: LearningJob<L>,
    value: Option<Scalar>,
    next_state: Seq<Scalar>,
    current: InferResult<L>,
) -> bool {
    exists|step: LearnStep<L>, middle: PcActorCritic<L>, result: Result<Scalar, PcError>|
        {
            &&& job.makes(step, value, next_state, current)
            &&& #[trigger] learned(nets, before, middle, step, result)
            &&& settled(middle, after, job.transition.infer.surprise_score)
        }
}

/// The course of several updates.
pub struct JobsRecord<L: LinAlg> {
    /// The agent before the first update, between the updates and after the last.
    pub agents: Seq<PcActorCritic<L>>,
    /// What the critic said of each step, where it was asked beforehand.
    pub values: Seq<Scalar>,
}

/// Updates were made one after the other. Where the values come first, the critic was asked
/// about every step before any update.
pub open spec fn jobs_done_along<L: LinAlg, N: Networks<L>>(
    nets: &N,
    before: PcActorCritic<L>,
    after: PcActorCritic<L>,
    jobs: Seq<LearningJob<L>>,
    values_first: bool,
    next_state: Seq<Scalar>,
    current: InferResult<L>,
    record: JobsRecord<L>,
) -> bool {
    &&& record.agents.len() == jobs.len() + 1
    &&& record.agents[0] == before
    &&& record.agents[jobs.len() as int] == after
    &&& values_first ==> {
        &&& record.values.len() == jobs.len()
        &&& forall|k: int|
            0 <= k < jobs.len() ==> valued(
                nets,
                &before.backend,
                &before.critic,
                (#[trigger] jobs[k]).seen(),
                record.values[k],
            )
    }
    &&& forall|k: int|
        0 <= k < jobs.len() ==> job_done(
            nets,
            record.agents[k],
            record.agents[k + 1],
            #[trigger] jobs[k],
            if values_first {
                Some(record.values[k])
            } else {
                None
            },
            next_state,
            current,
        )
}

/// Updates were made one after the other, whatever the networks answered.
pub open spec fn jobs_done<L: LinAlg, N: Networks<L>>(
    nets: &N,
    before: PcActorCritic<L>,
    after: PcActorCritic<L>,
    jobs: Seq<LearningJob<L>>,
    values_first: bool,
    next_state: Seq<Scalar>,
    current: InferResult<L>,
) -> bool {
    exists|record: JobsRecord<L>|
        #[trigger] jobs_done_along(
            nets,
            before,
            after,
            jobs,
            values_first,
            next_state,
            current,
            record,
        )
}

/// The course of one step.
pub struct StepRecord<L: LinAlg> {
    /// Inference at the observation.
    pub current: InferResult<L>,
    /// The step before.
    pub previous: Option<PreviousStep<L>>,
    /// The agent with the step before taken out.
    pub taken: PcActorCritic<L>,
    /// The agent with the step before recorded.
    pub recorded: PcActorCritic<L>,
    /// The agent with the updates handed out.
    pub planned: PcActorCritic<L>,
    /// The updates.
    pub jobs: Seq<LearningJob<L>>,
    /// Whether the critic was asked about every step before the first update.
    pub values_first: bool,
    /// The agent with the updates made.
    pub trained: PcActorCritic<L>,
    /// The generator after the choice of an action.
    pub rng: StdRng,
}

/// One step of an episode: the actor infers at the observation; the step before, where there
/// is one, is offered to the replay memory and the updates that are due are made; an action is
/// chosen from the inference and kept with the observation for the next step.
pub open spec fn stepped_along<L: LinAlg, N: Networks<L>>(
    nets: &N,
    before: PcActorCritic<L>,
    after: PcActorCritic<L>,
    state: Seq<Scalar>,
    open: Seq<usize>,
    reward: Scalar,
    terminal: bool,
    mask: Option<Vec<usize>>,
    action: usize,
    record: StepRecord<L>,
) -> bool {
    &&& inferred(nets, &before.backend, &before.actor, state, record.current)
    &&& previous_taken(before, record.taken, record.previous)
    &&& match record.previous {
        Some(p) => {
            &&& step_recorded(record.taken, record.recorded, p, reward, state, terminal)
            &&& learning_planned(
                record.recorded,
                record.planned,
                p,
                reward,
                terminal,
                record.jobs,
                record.values_first,
            )
            &&& jobs_done(
                nets,
                record.planned,
                record.trained,
                record.jobs,
                record.values_first,
                state,
                record.current,
            )
        },
        None => record.trained == record.taken,
    }
    &&& selected(
        nets,
        &record.trained.backend,
        &record.trained.actor,
        &record.current.y_conv,
        open,
        SelectionMode::Training,
        &record.trained.rng,
        (action, record.rng),
    )
    &&& step_kept(
        PcActorCritic { rng: record.rng, ..record.trained },
        after,
        state,
        action,
        record.current,
        mask,
        terminal,
    )
}

/// One step of an episode, whatever the networks answered.
pub open spec fn stepped<L: LinAlg, N: Networks<L>>(
    nets: &N,
    before: PcActorCritic<L>,
    after: PcActorCritic<L>,
    state: Seq<Scalar>,
    open: Seq<usize>,
    reward: Scalar,
    terminal: bool,
    mask: Option<Vec<usize>>,
    action: usize,
) -> bool {
    exists|record: StepRecord<L>|
        #[trigger] stepped_along(
            nets,
            before,
            after,
            state,
            open,
            reward,
            terminal,
            mask,
            action,
            record,
        )
}

/// One step of an episode that keeps the open actions for the next one.
pub open spec fn stepped_masked<L: LinAlg, N: Networks<L>>(
    nets: &N,
    before: PcActorCritic<L>,
    after: PcActorCritic<L>,
    state: Seq<Scalar>,
    open: Seq<usize>,
    reward: Scalar,
    terminal: bool,
    action: usize,
) -> bool {
    exists|mask: Vec<usize>|
        {
            &&& mask@ == open
            &&& #[trigger] stepped(
                nets,
                before,
                after,
                state,
                open,
                reward,
                terminal,
                Some(mask),
                action,
            )
        }
}

proof fn settling_keeps_importance<L: LinAlg>(
    before: PcActorCritic<L>,
    after: PcActorCritic<L>,
    surprise: Scalar,
    n: nat,
)
    requires
        before.importance_fits(),
        before.has_room(n + 1),
        settled(before, after, surprise),
    ensures
        after.importance_fits(),
        after.has_room(n),
        after.same_besides_plasticity(before),
{
    if before.actor_hysteresis is Some || before.critic_hysteresis is Some {
        let signal = before.last_td_error.magnitude_of();
        let s = plasticity_step::<L>(
            before.config,
            before.actor_plasticity(),
            before.critic_plasticity(),
            surprise,
            signal,
        );
        assert(fisher_views(before.actor_fisher@).len() == before.actor_fisher@.len());
        assert(fisher_views(before.critic_fisher@).len() == before.critic_fisher@.len());
        assert(fisher_views(after.actor_fisher@).len() == after.actor_fisher@.len());
        assert(fisher_views(after.critic_fisher@).len() == after.critic_fisher@.len());
        steps_keep_records_in_shape::<L>(
            before.config,
            before.actor_importance(),
            s.actor_slept,
            s.actor_woke,
            s.actor.plastic,
            layer_views(before.actor.layers@),
        );
        steps_keep_records_in_shape::<L>(
            before.config,
            before.critic_importance(),
            s.critic_slept,
            s.critic_woke,
            s.critic.plastic,
            layer_views(before.critic.layers@),
        );
    }
}

impl<L: LinAlg> PcActorCritic<L> {
    /// There is room to count `n` more steps.
    pub open spec fn has_room(self, n: nat) -> bool {
        self.actor_plasticity().room(n) && self.critic_plasticity().room(n)
    }

    /// Nothing differs but what learning and settling change.
    pub open spec fn same_besides_training(self, other: Self) -> bool {
        self == (PcActorCritic {
            actor: self.actor,
            critic: self.critic,
            polyak_target: self.polyak_target,
            actor_trace: self.actor_trace,
            layer_error_ema: self.layer_error_ema,
            surprise_buffer: self.surprise_buffer,
            td_error_buffer: self.td_error_buffer,
            last_td_error: self.last_td_error,
            steps_since_last_rollback_hard: self.steps_since_last_rollback_hard,
            actor_hysteresis: self.actor_hysteresis,
            critic_hysteresis: self.critic_hysteresis,
            actor_plastic_step_counter: self.actor_plastic_step_counter,
            critic_plastic_step_counter: self.critic_plastic_step_counter,
            critic_frozen_steps: self.critic_frozen_steps,
            actor_frozen_steps: self.actor_frozen_steps,
            actor_fisher: self.actor_fisher,
            critic_fisher: self.critic_fisher,
            actor_last_phase_reliable: self.actor_last_phase_reliable,
            critic_last_phase_reliable: self.critic_last_phase_reliable,
            ..other
        })
    }

    /// The step before as the replay memory keeps it.
    pub open spec fn remembered_step(
        self,
        reward: Scalar,
        next_state: Seq<Scalar>,
        terminal: bool,
    ) -> TransitionView {
        TransitionView {
            state: L::seq(self.state_prev->0),
            action: ActionView::Discrete(self.action_prev->0),
            reward,
            next_state,
            done: terminal,
            valid_actions: Some(
                match self.valid_actions_prev {
                    Some(m) => m@,
                    None => every_action(self.config.actor.output_size as nat),
                },
            ),
        }
    }

    /// What a step leaves alone and what it does to the memories: the configuration, the
    /// backend, the champion and the cooldown stay; the step before is offered to the replay
    /// memory, once; nothing waits after the end of an episode.
    pub open spec fn moved_on(
        self,
        before: Self,
        state: Seq<Scalar>,
        reward: Scalar,
        terminal: bool,
    ) -> bool {
        &&& self.config == before.config
        &&& self.backend == before.backend
        &&& self.frozen_champion == before.frozen_champion
        &&& self.rollback_hard_cooldown_steps == before.rollback_hard_cooldown_steps
        &&& self.replay_clamp_count == before.replay_clamp_count
        &&& replay_opt(self.replay_buffer) == if before.has_previous() {
            replay_with(
                replay_opt(before.replay_buffer),
                before.remembered_step(reward, state, terminal),
            )
        } else {
            replay_opt(before.replay_buffer)
        }
        &&& before.has_previous() && before.config.td_steps > 0 && terminal
            ==> self.td_buffer@.len() == 0
        &&& !before.has_previous() || before.config.td_steps == 0 ==> self.td_buffer@
            == before.td_buffer@
        &&& self.has_previous() <==> !terminal
    }

    /// The agent can take a step: importance records fit the networks, and every update that
    /// may become due can be counted.
    pub open spec fn steppable(self) -> bool {
        self.importance_fits() && self.has_room(self.td_buffer@.len() + 1)
    }

    /// Whether the agent can take a step.
    pub fn can_step(&self) -> (r: bool)
        ensures
            r == self.steppable(),
    {
        let waiting: u128 = self.td_buffer.len() as u128 + 1;
        let limit: u128 = u64::MAX as u128;
        let actor = match &self.actor_hysteresis {
            Some(h) => self.actor_plastic_step_counter as u128 + waiting <= limit
                && self.actor_frozen_steps as u128 + waiting <= limit && h.fast.k as u128 + waiting
                <= limit && h.slow.k as u128 + waiting <= limit,
            None => true,
        };
        let critic = match &self.critic_hysteresis {
            Some(h) => self.critic_plastic_step_counter as u128 + waiting <= limit
                && self.critic_frozen_steps as u128 + waiting <= limit && h.fast.k as u128
                + waiting <= limit && h.slow.k as u128 + waiting <= limit,
            None => true,
        };
        actor && critic && (self.actor_fisher.len() == 0 || records_fit(
            &self.backend,
            &self.actor_fisher,
            &self.actor.layers,
        )) && (self.critic_fisher.len() == 0 || records_fit(
            &self.backend,
            &self.critic_fisher,
            &self.critic.layers,
        ))
    }

    fn ask_values<N: Networks<L>>(&self, nets: &N, jobs: &Vec<LearningJob<L>>) -> (r: Vec<Scalar>)
        ensures
            r@.len() == jobs@.len(),
            forall|k: int|
                0 <= k < jobs@.len() ==> valued(
                    nets,
                    &self.backend,
                    &self.critic,
                    (#[trigger] jobs@[k]).seen(),
                    r@[k],
                ),
    {
        let mut values: Vec<Scalar> = Vec::new();
        let mut k: usize = 0;
        while k < jobs.len()
            invariant
                k <= jobs@.len(),
                values@.len() == k,
                forall|j: int|
                    0 <= j < k ==> valued(
                        nets,
                        &self.backend,
                        &self.critic,
                        (#[trigger] jobs@[j]).seen(),
                        values@[j],
                    ),
            decreases jobs@.len() - k,
        {
            let state = self.backend.vec_to_vec(&jobs[k].transition.state);
            let input = critic_input(
                &self.backend,
                state.as_slice(),
                &jobs[k].transition.infer.latent_concat,
            );
            let v = nets.value(&self.backend, &self.critic, input.as_slice());
            assert(valued(nets, &self.backend, &self.critic, jobs@[k as int].seen(), v));
            values.push(v);
            k = k + 1;
        }
        values
    }

    /// Makes the updates that are due, one after the other.
    pub fn run_jobs<N: Networks<L>>(
        &mut self,
        nets: &N,
        plan: &LearningPlan<L>,
        next_state: &[Scalar],
        current: &InferResult<L>,
    )
        requires
            old(self).importance_fits(),
            old(self).has_room(plan.jobs@.len()),
        ensures
            jobs_done(
                nets,
                *old(self),
                *final(self),
                plan.jobs@,
                plan.values_first,
                next_state@,
                *current,
            ),
            final(self).importance_fits(),
            old(self).anchors_fit() ==> final(self).anchors_fit(),
            final(self).same_besides_training(*old(self)),
    {
        let values = if plan.values_first {
            self.ask_values(nets, &plan.jobs)
        } else {
            Vec::new()
        };
        let n: usize = plan.jobs.len();
        let ghost mut agents: Seq<PcActorCritic<L>> = seq![*self];
        let mut k: usize = 0;
        while k < n
            invariant
                k <= n,
                n == plan.jobs@.len(),
                plan.values_first ==> values@.len() == n,
                agents.len() == k + 1,
                agents[0] == *old(self),
                agents[k as int] == *self,
                self.importance_fits(),
                old(self).anchors_fit() ==> self.anchors_fit(),
                self.same_besides_training(*old(self)),
                self.has_room((n - k) as nat),
                forall|j: int|
                    0 <= j < k ==> job_done(
                        nets,
                        agents[j],
                        agents[j + 1],
                        #[trigger] plan.jobs@[j],
                        if plan.values_first {
                            Some(values@[j])
                        } else {
                            None
                        },
                        next_state@,
                        *current,
                    ),
            decreases n - k,
        {
            let job = &plan.jobs[k];
            let state = self.backend.vec_to_vec(&job.transition.state);
            let value = if plan.values_first {
                Some(values[k])
            } else {
                None
            };
            let step = LearnStep {
                state: state.as_slice(),
                infer: &job.transition.infer,
                action: job.transition.action,
                valid_actions: job.transition.valid_actions.as_slice(),
                reward: job.reward,
                next_state,
                next_infer: current,
                done: job.done,
                gamma: job.gamma,
                pre_v_s: value,
                pre_td_error: None,
                mode: LearnMode::Online,
            };
            let ghost before = *self;
            let result = self.learn_continuous_inner(nets, &step);
            let ghost middle = *self;
            assert(middle.has_room((n - k) as nat));
            self.settle(job.transition.infer.surprise_score);
            proof {
                settling_keeps_importance(
                    middle,
                    *self,
                    job.transition.infer.surprise_score,
                    (n - k - 1) as nat,
                );
                assert(learned(nets, before, middle, step, result));
                let grown = agents.push(*self);
                assert forall|j: int| 0 <= j < k + 1 implies job_done(
                    nets,
                    grown[j],
                    grown[j + 1],
                    #[trigger] plan.jobs@[j],
                    if plan.values_first {
                        Some(values@[j])
                    } else {
                        None
                    },
                    next_state@,
                    *current,
                ) by {
                    if j < k {
                        assert(grown[j] == agents[j]);
                        assert(grown[j + 1] == agents[j + 1]);
                    }
                }
                agents = grown;
            }
            k = k + 1;
        }
        proof {
            let record = JobsRecord { agents, values: values@ };
            assert(jobs_done_along(
                nets,
                *old(self),
                *self,
                plan.jobs@,
                plan.values_first,
                next_state@,
                *current,
                record,
            ));
        }
    }

    /// One step of an episode with the given actions open; `mask` is what is kept of them.
    pub fn step_inner<N: Networks<L>>(
        &mut self,
        nets: &N,
        state: &[Scalar],
        open: &[usize],
        reward: Scalar,
        terminal: bool,
        mask: Option<Vec<usize>>,
    ) -> (r: usize)
        requires
            old(self).steppable(),
        ensures
            stepped(nets, *old(self), *final(self), state@, open@, reward, terminal, mask, r),
            final(self).importance_fits(),
            old(self).anchors_fit() ==> final(self).anchors_fit(),
            final(self).moved_on(*old(self), state@, reward, terminal),
    {
        let ghost before = *self;
        let ghost any: StepRecord<L> = arbitrary();
        let current = nets.infer(&self.backend, &self.actor, state);
        let previous = self.take_previous();
        let ghost taken = *self;
        let ghost prev = previous;
        let ghost mut recorded = any.recorded;
        let ghost mut planned = any.planned;
        let ghost mut jobs = any.jobs;
        let ghost mut values_first = any.values_first;
        match previous {
            Some(p) => {
                self.record_transition(&p, reward, state, terminal);
                proof {
                    recorded = *self;
                }
                let plan = self.plan_learning(p, reward, terminal);
                proof {
                    planned = *self;
                    jobs = plan.jobs@;
                    values_first = plan.values_first;
                    assert(jobs.len() <= before.td_buffer@.len() + 1);
                }
                self.run_jobs(nets, &plan, state, &current);
            },
            None => {},
        }
        let ghost trained = *self;
        let (action, rng) = nets.select_action(
            &self.backend,
            &self.actor,
            &current.y_conv,
            open,
            SelectionMode::Training,
            &self.rng,
        );
        self.rng = rng;
        let ghost seen = current;
        self.finish_step(state, action, current, mask, terminal);
        proof {
            let record = StepRecord {
                current: seen,
                previous: prev,
                taken,
                recorded,
                planned,
                jobs,
                values_first,
                trained,
                rng,
            };
            assert(stepped_along(
                nets,
                before,
                *self,
                state@,
                open@,
                reward,
                terminal,
                mask,
                action,
                record,
            ));
        }
        action
    }

    /// One step of an episode with every action open: learns from the step before and chooses
    /// an action for the observation.
    pub fn step<N: Networks<L>>(
        &mut self,
        nets: &N,
        state: &[Scalar],
        reward: Scalar,
        terminal: bool,
    ) -> (r: usize)
        requires
            old(self).steppable(),
        ensures
            stepped(
                nets,
                *old(self),
                *final(self),
                state@,
                every_action(old(self).config.actor.output_size as nat),
                reward,
                terminal,
                None,
                r,
            ),
            final(self).importance_fits(),
            old(self).anchors_fit() ==> final(self).anchors_fit(),
            final(self).moved_on(*old(self), state@, reward, terminal),
    {
        let open = all_actions(self.config.actor.output_size);
        self.step_inner(nets, state, open.as_slice(), reward, terminal, None)
    }

    /// One step of an episode with the given actions open. Refused without open actions, and
    /// nothing changes.
    pub fn step_masked<N: Networks<L>>(
        &mut self,
        nets: &N,
        state: &[Scalar],
        valid_actions: &[usize],
        reward: Scalar,
        terminal: bool,
    ) -> (r: Result<usize, PcError>)
        requires
            old(self).steppable(),
        ensures
            r is Ok <==> valid_actions@.len() > 0,
            r matches Ok(action) ==> stepped_masked(
                nets,
                *old(self),
                *final(self),
                state@,
                valid_actions@,
                reward,
                terminal,
                action,
            ),
            r is Ok ==> {
                &&& final(self).importance_fits()
                &&& old(self).anchors_fit() ==> final(self).anchors_fit()
                &&& final(self).moved_on(*old(self), state@, reward, terminal)
            },
            r matches Err(e) ==> *final(self) == *old(self) && e.says(
                "valid_actions must not be empty"@,
            ),
    {
        match check_mask(valid_actions) {
            Ok(()) => {},
            Err(e) => {
                return Err(e);
            },
        }
        let mask = slice_to_vec(valid_actions);
        let ghost kept = mask;
        let action = self.step_inner(nets, state, valid_actions, reward, terminal, Some(mask));
        assert(stepped(
            nets,
            *old(self),
            *self,
            state@,
            valid_actions@,
            reward,
            terminal,
            Some(kept),
            action,
        ));
        Ok(action)
    }
}

/// No step waits to be learned from in an agent that was just built, reconfigured or loaded, nor
/// after the end of an episode.
pub proof fn no_step_waits_at_the_start<L: LinAlg>(agent: PcActorCritic<L>)
    requires
        agent.at_baseline() || agent.between_episodes() || exists|
            before: PcActorCritic<L>,
            state: Seq<Scalar>,
            reward: Scalar,
        | #[trigger]
            agent.moved_on(before, state, reward, true),
    ensures
        !agent.has_previous(),
{
}

/// The first step of an episode learns nothing: only what is kept for the next step, the trace
/// and the random numbers change.
pub proof fn first_step_learns_nothing<L: LinAlg, N: Networks<L>>(
    nets: &N,
    before: PcActorCritic<L>,
    after: PcActorCritic<L>,
    state: Seq<Scalar>,
    open: Seq<usize>,
    reward: Scalar,
    terminal: bool,
    mask: Option<Vec<usize>>,
    action: usize,
)
    requires
        !before.has_previous(),
        stepped(nets, before, after, state, open, reward, terminal, mask, action),
    ensures
        after == (PcActorCritic {
            state_prev: after.state_prev,
            action_prev: after.action_prev,
            infer_prev: after.infer_prev,
            valid_actions_prev: after.valid_actions_prev,
            actor_trace: after.actor_trace,
            rng: after.rng,
            ..before
        }),
        !terminal ==> after.actor_trace == before.actor_trace,
{
    let record: StepRecord<L> = choose|record: StepRecord<L>|
        #[trigger] stepped_along(
            nets,
            before,
            after,
            state,
            open,
            reward,
            terminal,
            mask,
            action,
            record,
        );
}

/// With networks that choose among the open actions, the action of a step is one of them.
pub proof fn action_is_open<L: LinAlg, N: Networks<L>>(
    nets: &N,
    before: PcActorCritic<L>,
    after: PcActorCritic<L>,
    state: Seq<Scalar>,
    open: Seq<usize>,
    reward: Scalar,
    terminal: bool,
    mask: Option<Vec<usize>>,
    action: usize,
)
    requires
        chooses_open_actions(nets),
        open.len() > 0,
        stepped(nets, before, after, state, open, reward, terminal, mask, action),
    ensures
        open.contains(action),
{
    let record: StepRecord<L> = choose|record: StepRecord<L>|
        #[trigger] stepped_along(
            nets,
            before,
            after,
            state,
            open,
            reward,
            terminal,
            mask,
            action,
            record,
        );
}

/// The same of a step that keeps the open actions.
pub proof fn masked_action_is_open<L: LinAlg, N: Networks<L>>(
    nets: &N,
    before: PcActorCritic<L>,
    after: PcActorCritic<L>,
    state: Seq<Scalar>,
    open: Seq<usize>,
    reward: Scalar,
    terminal: bool,
    action: usize,
)
    requires
        chooses_open_actions(nets),
        open.len() > 0,
        stepped_masked(nets, before, after, state, open, reward, terminal, action),
    ensures
        open.contains(action),
{
    let mask: Vec<usize> = choose|mask: Vec<usize>|
        {
            &&& mask@ == open
            &&& #[trigger] stepped(
                nets,
                before,
                after,
                state,
                open,
                reward,
                terminal,
                Some(mask),
                action,
            )
        };
    action_is_open(nets, before, after, state, open, reward, terminal, Some(mask), action);
}

/// The action of a step with every action open is one of the actor's outputs.
pub proof fn action_is_an_output<L: LinAlg, N: Networks<L>>(
    nets: &N,
    before: PcActorCritic<L>,
    after: PcActorCritic<L>,
    state: Seq<Scalar>,
    reward: Scalar,
    terminal: bool,
    action: usize,
)
    requires
        chooses_open_actions(nets),
        before.config.actor.output_size > 0,
        stepped(
            nets,
            before,
            after,
            state,
            every_action(before.config.actor.output_size as nat),
            reward,
            terminal,
            None,
            action,
        ),
    ensures
        action < before.config.actor.output_size,
{
    let all = every_action(before.config.actor.output_size as nat);
    action_is_open(nets, before, after, state, all, reward, terminal, None, action);
}

/// Every layer has one bias per row of weights.
pub open spec fn layers_shaped(layers: Seq<LayerView>) -> bool {
    forall|i: int|
        0 <= i < layers.len() ==> (#[trigger] layers[i]).weights.rows == layers[i].bias.len()
}

/// An agent that was just built or reconfigured can take a step.
pub proof fn fresh_agent_can_step<L: LinAlg>(agent: PcActorCritic<L>)
    requires
        agent.at_baseline(),
        agent.fully_equipped(),
        layers_shaped(layer_views(agent.actor.layers@)),
        layers_shaped(layer_views(agent.critic.layers@)),
    ensures
        agent.steppable(),
{
    let a = layer_views(agent.actor.layers@);
    let c = layer_views(agent.critic.layers@);
    let f = fisher_views(agent.actor_fisher@);
    let g = fisher_views(agent.critic_fisher@);
    assert(f.len() == agent.actor_fisher@.len() && g.len() == agent.critic_fisher@.len());
    if agent.actor_fisher@.len() > 0 {
        assert forall|i: int| 0 <= i < f.len() implies (#[trigger] f[i]).fits(a[i]) by {
            assert(a[i].weights.rows == a[i].bias.len());
        }
    }
    if agent.critic_fisher@.len() > 0 {
        assert forall|i: int| 0 <= i < g.len() implies (#[trigger] g[i]).fits(c[i]) by {
            assert(c[i].weights.rows == c[i].bias.len());
        }
    }
}

/// The value that the critic is moved toward for a step learned over several is the discounted sum
/// of the rewards from that step on plus, unless the episode ended, the value of the observation at
/// hand discounted once for each of those rewards. So bootstrapping and reward discounting agree.
pub proof fn several_step_target_spans_the_steps<L: LinAlg>(
    rd: Reading,
    before: PcActorCritic<L>,
    after: PcActorCritic<L>,
    previous: PreviousStep<L>,
    reward: Scalar,
    terminal: bool,
    jobs: Seq<LearningJob<L>>,
    values_first: bool,
    k: int,
    step: LearnStep<L>,
    value: Option<Scalar>,
    next_state: Seq<Scalar>,
    current: InferResult<L>,
    v_s: Scalar,
    v_next: Scalar,
    bound: real,
    big: real,
)
    requires
        reads::<L>(rd),
        learning_planned(before, after, previous, reward, terminal, jobs, values_first),
        before.config.gamma.finite(),
        0 as real <= rd.of(before.config.gamma) <= 1 as real,
        rd.bounds(rewards_in_play(before, reward), bound),
        bound >= 0 as real,
        0 <= k < jobs.len(),
        jobs[k].makes(step, value, next_state, current),
        v_next.finite(),
        sized(rd.of(v_next), big),
        step.value(v_s).finite(),
        sized(rd.of(step.value(v_s)), big),
        ({
            let n = rewards_in_play(before, reward).len();
            let off = return_error(rd.slack, bound, n) + (rd.slack + rd.slack) * (n as real);
            &&& (bound + rd.slack + rd.slack) * ((n + 1) as real) + off <= rd.top
            &&& 1 as real + rd.slack * (n as real) <= rd.top
            &&& bound * (n as real) <= big
            &&& big + big + big + off + rd.slack * big + rd.slack + rd.slack <= rd.top
        }),
    ensures
        ({
            let rewards = rewards_in_play(before, reward);
            let n = rewards.len();
            let g = rd.of(before.config.gamma);
            let off = return_error(rd.slack, bound, n) + (rd.slack + rd.slack) * (n as real)
                + rd.slack * big + rd.slack + rd.slack;
            rd.shows(
                step.target(v_s, v_next),
                discounted_sum(g, rd.all(rewards.skip(k))) + if terminal {
                    0 as real
                } else {
                    real_pow(g, (n - k) as nat) * rd.of(v_next)
                },
                off,
            )
        }),
{
    let rewards = rewards_in_play(before, reward);
    let n = rewards.len();
    let g = rd.of(before.config.gamma);
    let s = rd.slack;
    let e = return_error(s, bound, n) + (s + s) * (n as real);
    let m = n as real;
    assert((s + s) * m >= 0 as real && m * (m * s * bound + s + s) >= 0 as real)
        by (nonlinear_arith)
        requires
            s >= 0 as real,
            m >= 0 as real,
            bound >= 0 as real,
    ;
    assert(return_error(s, bound, n) == m * (m * s * bound + s + s));
    returns_and_discounts_agree::<L>(
        rd,
        before,
        after,
        previous,
        reward,
        terminal,
        jobs,
        values_first,
        bound,
        k,
    );
    let ahead = rd.all(rewards.skip(k));
    assert forall|i: int| 0 <= i < ahead.len() implies sized(#[trigger] ahead[i], bound) by {
        assert(rewards[k + i].finite());
    }
    discounted_is_sized(g, ahead, bound);
    assert(bound * (ahead.len() as real) <= bound * m) by (nonlinear_arith)
        requires
            ahead.len() as real <= m,
            bound >= 0 as real,
    ;
    target_is_reward_and_discounted_value::<L>(
        rd,
        step,
        v_s,
        v_next,
        discounted_sum(g, ahead),
        real_pow(g, (n - k) as nat),
        e,
        s,
        big,
    );
}

} // verus!
