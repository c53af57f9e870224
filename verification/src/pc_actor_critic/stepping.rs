//! Step-by-step operation: what is learned from the step before, and what is kept for the
//! step after.

use vstd::prelude::*;
use vstd::slice::slice_to_vec;

use crate::error::PcError;
use crate::linalg::{zero_seq, LinAlg};
use crate::networks::InferResult;
use crate::pc_actor_critic::agent::{replay_opt, PcActorCritic, TdTransition};
use crate::pc_actor_critic::discounting::{
    all_returns, compute_n_step_reward, compute_returns, discounted_sum, n_step_return,
    return_error, return_over_steps_is_the_discounted_sum, returns_discount_what_lies_ahead,
};
use crate::pc_actor_critic::ewma::{sample_moves_the_average_by_its_share, taking_part};
use crate::pc_actor_critic::plasticity::plasticity_stepped;
use crate::pc_actor_critic::replay::{
    copy_indices, Action, ActionView, ReplayTransition, ReplayView, TransitionView,
};
use crate::reading::{
    near, powers_stay_small, reads, reads_order, reads_quotients, real_pow, sized, Reading,
};
use crate::scalar::{Scalar, SIGN_BITS};

verus! {

/// The step before.
pub struct PreviousStep<L: LinAlg> {
    /// Observation.
    pub state: L::Vector,
    /// Action taken.
    pub action: usize,
    /// Inference at the observation.
    pub infer: InferResult<L>,
    /// Actions that were open.
    pub valid_actions: Vec<usize>,
}

/// One update to be made.
pub struct LearningJob<L: LinAlg> {
    /// The step to learn from.
    pub transition: TdTransition<L>,
    /// Its reward, or its return over several steps.
    pub reward: Scalar,
    /// Whether the episode ended at the observation to bootstrap from.
    pub done: bool,
    /// Discount of the value at that observation.
    pub gamma: Scalar,
}

/// The updates to be made, in order.
pub struct LearningPlan<L: LinAlg> {
    /// The updates.
    pub jobs: Vec<LearningJob<L>>,
    /// Whether the critic has to be asked about every step before the first update.
    pub values_first: bool,
}

/// All of `n` actions.
pub open spec fn every_action(n: nat) -> Seq<usize> {
    Seq::new(n, |i: int| i as usize)
}

/// All of `n` actions.
pub fn all_actions(n: usize) -> (r: Vec<usize>)
    ensures
        r@ == every_action(n as nat),
{
    let mut out: Vec<usize> = Vec::new();
    let mut i: usize = 0;
    while i < n
        invariant
            i <= n,
            out@.len() == i,
            forall|j: int| 0 <= j < i ==> out@[j] == j,
        decreases n - i,
    {
        out.push(i);
        i = i + 1;
    }
    assert(out@ =~= every_action(n as nat));
    out
}

/// Refuses a step without open actions.
pub fn check_mask(valid_actions: &[usize]) -> (r: Result<(), PcError>)
    ensures
        r is Ok <==> valid_actions@.len() > 0,
        r matches Err(e) ==> e.says("valid_actions must not be empty"@),
{
    if valid_actions.len() == 0 {
        Err(PcError::ConfigValidation(String::from_str("valid_actions must not be empty")))
    } else {
        Ok(())
    }
}

/// Steps that wait for their return after one more came in; a step without a finite reward
/// does not wait.
pub open spec fn waiting_with<L: LinAlg>(
    waiting: Seq<TdTransition<L>>,
    t: TdTransition<L>,
) -> Seq<TdTransition<L>> {
    if t.reward.finite() {
        waiting.push(t)
    } else {
        waiting
    }
}

/// Steps that still wait once the updates that are due have been handed out: none at the end
/// of an episode, otherwise all but the oldest where the return is complete.
pub open spec fn waiting_after<L: LinAlg>(
    waiting: Seq<TdTransition<L>>,
    td_steps: nat,
    terminal: bool,
) -> Seq<TdTransition<L>> {
    if terminal {
        Seq::empty()
    } else if waiting.len() >= td_steps {
        waiting.drop_first()
    } else {
        waiting
    }
}

/// The rewards of steps that wait.
pub open spec fn waiting_rewards<L: LinAlg>(waiting: Seq<TdTransition<L>>) -> Seq<Scalar> {
    waiting.map_values(|t: TdTransition<L>| t.reward)
}

/// The updates that are due with the given steps waiting: all of them at the end of an
/// episode, otherwise that of the oldest where its return is complete.
pub open spec fn jobs_due<L: LinAlg>(
    waiting: Seq<TdTransition<L>>,
    td_steps: nat,
    terminal: bool,
    gamma: Scalar,
) -> Seq<LearningJob<L>> {
    if terminal {
        Seq::new(
            waiting.len(),
            |k: int|
                LearningJob {
                    transition: waiting[k],
                    reward: all_returns::<L>(
                        gamma,
                        waiting_rewards(waiting),
                        Some(Scalar::zero()),
                    )[k],
                    done: true,
                    gamma: L::power(gamma, (waiting.len() - k) as nat),
                },
        )
    } else if waiting.len() >= td_steps {
        seq![
            LearningJob {
                transition: waiting[0],
                reward: n_step_return::<L>(gamma, waiting_rewards(waiting)),
                done: false,
                gamma: L::power(gamma, waiting.len()),
            },
        ]
    } else {
        Seq::empty()
    }
}

impl<L: LinAlg> PreviousStep<L> {
    /// The step with its reward, as it waits for its return.
    pub open spec fn rewarded(self, reward: Scalar) -> TdTransition<L> {
        TdTransition {
            state: self.state,
            infer: self.infer,
            action: self.action,
            valid_actions: self.valid_actions,
            reward,
        }
    }

    /// The step as the replay memory keeps it.
    pub open spec fn remembered_as(
        self,
        reward: Scalar,
        next_state: Seq<Scalar>,
        terminal: bool,
    ) -> TransitionView {
        TransitionView {
            state: L::seq(self.state),
            action: ActionView::Discrete(self.action),
            reward,
            next_state,
            done: terminal,
            valid_actions: Some(self.valid_actions@),
        }
    }
}

/// The replay memory after a step was offered to it, where there is one that admits it.
pub open spec fn replay_with(memory: Option<ReplayView>, t: TransitionView) -> Option<ReplayView> {
    match memory {
        Some(m) => Some(
            if m.admits(t) {
                m.offered(t)
            } else {
                m
            },
        ),
        None => None,
    }
}

/// The step before was taken out of the agent, where there is one. Without a mask every action
/// was open.
pub open spec fn previous_taken<L: LinAlg>(
    before: PcActorCritic<L>,
    after: PcActorCritic<L>,
    previous: Option<PreviousStep<L>>,
) -> bool {
    &&& previous is Some <==> before.has_previous()
    &&& previous matches Some(p) ==> {
        &&& before.state_prev == Some(p.state)
        &&& before.action_prev == Some(p.action)
        &&& before.infer_prev == Some(p.infer)
        &&& p.valid_actions@ == match before.valid_actions_prev {
            Some(m) => m@,
            None => every_action(before.config.actor.output_size as nat),
        }
    }
    &&& after == (PcActorCritic {
        state_prev: None,
        action_prev: None,
        infer_prev: None,
        valid_actions_prev: if previous is Some {
            None
        } else {
            before.valid_actions_prev
        },
        ..before
    })
}

/// The step before was offered to the replay memory.
pub open spec fn step_recorded<L: LinAlg>(
    before: PcActorCritic<L>,
    after: PcActorCritic<L>,
    previous: PreviousStep<L>,
    reward: Scalar,
    next_state: Seq<Scalar>,
    terminal: bool,
) -> bool {
    &&& replay_opt(after.replay_buffer) == replay_with(
        replay_opt(before.replay_buffer),
        previous.remembered_as(reward, next_state, terminal),
    )
    &&& after == (PcActorCritic { replay_buffer: after.replay_buffer, ..before })
}

/// The updates that are due were handed out. The critic has to be asked about every step
/// before the first update where several steps get their returns at the end of an episode.
pub open spec fn learning_planned<L: LinAlg>(
    before: PcActorCritic<L>,
    after: PcActorCritic<L>,
    previous: PreviousStep<L>,
    reward: Scalar,
    terminal: bool,
    jobs: Seq<LearningJob<L>>,
    values_first: bool,
) -> bool {
    let waiting = waiting_with(before.td_buffer@, previous.rewarded(reward));
    let n = before.config.td_steps as nat;
    &&& n == 0 ==> {
        &&& jobs == seq![
            LearningJob {
                transition: previous.rewarded(reward),
                reward,
                done: terminal,
                gamma: before.config.gamma,
            },
        ]
        &&& after.td_buffer@ == before.td_buffer@
    }
    &&& n > 0 ==> {
        &&& jobs == jobs_due(waiting, n, terminal, before.config.gamma)
        &&& after.td_buffer@ == waiting_after(waiting, n, terminal)
    }
    &&& values_first == (n > 0 && terminal)
    &&& after == (PcActorCritic { td_buffer: after.td_buffer, ..before })
}

/// The plasticity machines took a step in, where there are any.
pub open spec fn settled<L: LinAlg>(
    before: PcActorCritic<L>,
    after: PcActorCritic<L>,
    surprise: Scalar,
) -> bool {
    if before.actor_hysteresis is Some || before.critic_hysteresis is Some {
        plasticity_stepped(before, after, surprise, before.last_td_error.magnitude_of())
    } else {
        after == before
    }
}

/// The step was kept for the next call; at the end of an episode nothing is kept and the
/// eligibility trace starts over.
pub open spec fn step_kept<L: LinAlg>(
    before: PcActorCritic<L>,
    after: PcActorCritic<L>,
    state: Seq<Scalar>,
    action: usize,
    infer: InferResult<L>,
    mask: Option<Vec<usize>>,
    terminal: bool,
) -> bool {
    &&& terminal ==> {
        &&& after.state_prev is None
        &&& after.action_prev is None
        &&& after.infer_prev is None
        &&& after.valid_actions_prev is None
        &&& after.actor_trace@ == zero_seq(before.actor_trace@.len())
    }
    &&& !terminal ==> {
        &&& after.state_prev is Some
        &&& L::seq(after.state_prev->0) == state
        &&& after.action_prev == Some(action)
        &&& after.infer_prev == Some(infer)
        &&& after.valid_actions_prev == mask
        &&& after.actor_trace == before.actor_trace
    }
    &&& after == (PcActorCritic {
        state_prev: after.state_prev,
        action_prev: after.action_prev,
        infer_prev: after.infer_prev,
        valid_actions_prev: after.valid_actions_prev,
        actor_trace: after.actor_trace,
        ..before
    })
}

impl<L: LinAlg> PcActorCritic<L> {
    /// There is a step before to learn from.
    pub open spec fn has_previous(self) -> bool {
        self.state_prev is Some && self.action_prev is Some && self.infer_prev is Some
    }

    /// Takes the step before out of the agent, where there is one. Without a mask every
    /// action was open.
    pub fn take_previous(&mut self) -> (r: Option<PreviousStep<L>>)
        ensures
            previous_taken(*old(self), *final(self), r),
    {
        let state = self.state_prev.take();
        let action = self.action_prev.take();
        let infer = self.infer_prev.take();
        match (state, action, infer) {
            (Some(state), Some(action), Some(infer)) => {
                let valid_actions = match self.valid_actions_prev.take() {
                    Some(m) => m,
                    None => all_actions(self.config.actor.output_size),
                };
                Some(PreviousStep { state, action, infer, valid_actions })
            },
            _ => None,
        }
    }

    /// Offers the step before to the replay memory.
    pub fn record_transition(
        &mut self,
        previous: &PreviousStep<L>,
        reward: Scalar,
        next_state: &[Scalar],
        terminal: bool,
    )
        ensures
            step_recorded(*old(self), *final(self), *previous, reward, next_state@, terminal),
    {
        match &mut self.replay_buffer {
            Some(buffer) => {
                let transition = ReplayTransition {
                    state: self.backend.vec_to_vec(&previous.state),
                    action: Action::Discrete(previous.action),
                    reward,
                    next_state: slice_to_vec(next_state),
                    done: terminal,
                    valid_actions: Some(copy_indices(&previous.valid_actions)),
                };
                let _ = buffer.push(transition);
            },
            None => {},
        }
    }

    /// Hands out the updates that are due now that the step before got its reward: at once
    /// where one step is enough, otherwise once its return over several steps is complete.
    pub fn plan_learning(
        &mut self,
        previous: PreviousStep<L>,
        reward: Scalar,
        terminal: bool,
    ) -> (r: LearningPlan<L>)
        ensures
            learning_planned(
                *old(self),
                *final(self),
                previous,
                reward,
                terminal,
                r.jobs@,
                r.values_first,
            ),
    {
        let transition = TdTransition {
            state: previous.state,
            infer: previous.infer,
            action: previous.action,
            valid_actions: previous.valid_actions,
            reward,
        };
        let gamma = self.config.gamma;
        if self.config.td_steps == 0 {
            let mut jobs: Vec<LearningJob<L>> = Vec::new();
            jobs.push(LearningJob { transition, reward, done: terminal, gamma });
            return LearningPlan { jobs, values_first: false };
        }
        if reward.is_finite() {
            self.td_buffer.push_back(transition);
        }
        let ghost waiting = self.td_buffer@;
        let n: usize = self.td_buffer.len();
        let mut rewards: Vec<Scalar> = Vec::new();
        let mut i: usize = 0;
        while i < n
            invariant
                i <= n,
                n == self.td_buffer@.len(),
                waiting == self.td_buffer@,
                rewards@.len() == i,
                forall|j: int| 0 <= j < i ==> rewards@[j] == waiting[j].reward,
            decreases n - i,
        {
            rewards.push(self.td_buffer[i].reward);
            i = i + 1;
        }
        assert(rewards@ =~= waiting_rewards(waiting));
        let mut jobs: Vec<LearningJob<L>> = Vec::new();
        if terminal {
            let totals = compute_returns::<L>(gamma, rewards.as_slice(), Some(Scalar::zero()));
            let ghost due = jobs_due(waiting, self.config.td_steps as nat, true, gamma);
            let mut k: usize = 0;
            while k < n
                invariant
                    k <= n,
                    n == waiting.len(),
                    self.td_buffer@ == waiting.skip(k as int),
                    totals@ == all_returns::<L>(
                        gamma,
                        waiting_rewards(waiting),
                        Some(Scalar::zero()),
                    ),
                    due == jobs_due(waiting, self.config.td_steps as nat, true, gamma),
                    jobs@ == due.take(k as int),
                    *self == (PcActorCritic { td_buffer: self.td_buffer, ..*old(self) }),
                decreases n - k,
            {
                match self.td_buffer.pop_front() {
                    Some(transition) => {
                        jobs.push(
                            LearningJob {
                                transition,
                                reward: totals[k],
                                done: true,
                                gamma: L::scalar_powi(gamma, n - k),
                            },
                        );
                    },
                    None => {},
                }
                assert(self.td_buffer@ =~= waiting.skip(k + 1));
                assert(jobs@ =~= due.take(k + 1));
                k = k + 1;
            }
            assert(self.td_buffer@ =~= Seq::empty());
            assert(jobs@ =~= due);
            LearningPlan { jobs, values_first: true }
        } else {
            if n >= self.config.td_steps {
                let total = compute_n_step_reward::<L>(gamma, rewards.as_slice());
                let power = L::scalar_powi(gamma, n);
                match self.td_buffer.pop_front() {
                    Some(transition) => {
                        jobs.push(
                            LearningJob { transition, reward: total, done: false, gamma: power },
                        );
                    },
                    None => {},
                }
                assert(self.td_buffer@ =~= waiting.drop_first());
                assert(jobs@ =~= jobs_due(waiting, self.config.td_steps as nat, false, gamma));
            }
            LearningPlan { jobs, values_first: false }
        }
    }

    /// Lets the plasticity machines, where there are any, take in the step that was learned
    /// from.
    pub fn settle(&mut self, surprise: Scalar)
        requires
            old(self).importance_fits(),
            old(self).actor_plasticity().can_count(surprise),
            old(self).critic_plasticity().can_count(old(self).last_td_error.magnitude_of()),
        ensures
            settled(*old(self), *final(self), surprise),
    {
        if self.actor_hysteresis.is_some() || self.critic_hysteresis.is_some() {
            let signal = self.last_td_error.abs();
            self.process_hysteresis(surprise, signal);
        }
    }

    /// Keeps the step for the next call; at the end of an episode nothing is kept and the
    /// eligibility trace starts over.
    pub fn finish_step(
        &mut self,
        state: &[Scalar],
        action: usize,
        infer: InferResult<L>,
        mask: Option<Vec<usize>>,
        terminal: bool,
    )
        ensures
            step_kept(*old(self), *final(self), state@, action, infer, mask, terminal),
            final(self).has_previous() <==> !terminal,
    {
        if terminal {
            self.state_prev = None;
            self.action_prev = None;
            self.infer_prev = None;
            self.valid_actions_prev = None;
            self.clear_trace();
        } else {
            self.state_prev = Some(self.backend.vec_from_slice(state));
            self.action_prev = Some(action);
            self.infer_prev = Some(infer);
            self.valid_actions_prev = mask;
        }
    }

    /// Forgets the step before, the steps that wait and the eligibility trace. Weights and
    /// everything learned stay.
    pub fn reset_step(&mut self)
        ensures
            !final(self).has_previous(),
            final(self).td_buffer@.len() == 0,
            final(self).actor_trace@ == zero_seq(old(self).actor_trace@.len()),
            *final(self) == (PcActorCritic {
                state_prev: None,
                action_prev: None,
                infer_prev: None,
                valid_actions_prev: None,
                td_buffer: final(self).td_buffer,
                actor_trace: final(self).actor_trace,
                ..*old(self)
            }),
    {
        self.state_prev = None;
        self.action_prev = None;
        self.infer_prev = None;
        self.valid_actions_prev = None;
        self.td_buffer.clear();
        self.clear_trace();
    }
}

/// Fewer steps wait than a return takes, whatever comes in.
pub proof fn few_steps_wait<L: LinAlg>(
    waiting: Seq<TdTransition<L>>,
    t: TdTransition<L>,
    td_steps: nat,
    terminal: bool,
)
    requires
        td_steps > 0,
        waiting.len() < td_steps,
    ensures
        waiting_after(waiting_with(waiting, t), td_steps, terminal).len() < td_steps,
{
}

/// No step that waits is lost or learned from twice: the updates that are due followed by
/// the steps that still wait are the steps that waited, in their order.
pub proof fn every_waiting_step_is_learned_once<L: LinAlg>(
    waiting: Seq<TdTransition<L>>,
    td_steps: nat,
    terminal: bool,
    gamma: Scalar,
)
    requires
        td_steps > 0,
    ensures
        jobs_due(waiting, td_steps, terminal, gamma).map_values(
            |j: LearningJob<L>| j.transition,
        ) + waiting_after(waiting, td_steps, terminal) == waiting,
{
    let due = jobs_due(waiting, td_steps, terminal, gamma).map_values(
        |j: LearningJob<L>| j.transition,
    );
    assert(due + waiting_after(waiting, td_steps, terminal) =~= waiting);
}

/// Nothing waits after the end of an episode.
pub proof fn nothing_waits_after_the_end<L: LinAlg>(waiting: Seq<TdTransition<L>>, td_steps: nat)
    ensures
        waiting_after(waiting, td_steps, true).len() == 0,
{
}

/// The rewards that returns are made of once the step before got its own: those of the steps
/// that wait and, where it is finite, the new one; with one-step learning the new one alone.
pub open spec fn rewards_in_play<L: LinAlg>(agent: PcActorCritic<L>, reward: Scalar) -> Seq<
    Scalar,
> {
    let held = agent.td_buffer@.map_values(|t: TdTransition<L>| t.reward);
    if agent.config.td_steps == 0 {
        seq![reward]
    } else if reward.finite() {
        held.push(reward)
    } else {
        held
    }
}

/// Returns and discounts that are handed out agree: the `k`-th update gets the sum of the rewards
/// from its step on, each discounted once for every step in between, and the value that follows
/// the last of them is discounted once for each of them, as one more reward there would be. An
/// update is handed out at once with one-step learning, otherwise for the oldest step as soon as
/// its return is complete, and for every step at the end of an episode.
pub proof fn returns_and_discounts_agree<L: LinAlg>(
    rd: Reading,
    before: PcActorCritic<L>,
    after: PcActorCritic<L>,
    previous: PreviousStep<L>,
    reward: Scalar,
    terminal: bool,
    jobs: Seq<LearningJob<L>>,
    values_first: bool,
    bound: real,
    k: int,
)
    requires
        reads::<L>(rd),
        learning_planned(before, after, previous, reward, terminal, jobs, values_first),
        before.config.gamma.finite(),
        0 as real <= rd.of(before.config.gamma) <= 1 as real,
        rd.bounds(rewards_in_play(before, reward), bound),
        bound >= 0 as real,
        ({
            let n = rewards_in_play(before, reward).len();
            &&& (bound + rd.slack + rd.slack) * ((n + 1) as real) + return_error(
                rd.slack,
                bound,
                n,
            ) <= rd.top
            &&& 1 as real + rd.slack * (n as real) <= rd.top
        }),
        0 <= k < jobs.len(),
    ensures
        ({
            let rewards = rewards_in_play(before, reward);
            let g = rd.of(before.config.gamma);
            let n = (rewards.len() - k) as nat;
            let off = return_error(rd.slack, bound, rewards.len()) + (rd.slack + rd.slack) * (
            rewards.len() as real);
            &&& jobs.len() == if before.config.td_steps == 0 {
                1
            } else if terminal {
                rewards.len()
            } else if rewards.len() >= before.config.td_steps {
                1
            } else {
                0
            }
            &&& jobs[k].done == terminal
            &&& rd.shows(jobs[k].reward, discounted_sum(g, rd.all(rewards.skip(k))), off)
            &&& rd.shows(jobs[k].gamma, real_pow(g, n), rd.slack)
            &&& 0 as real <= real_pow(g, n) <= 1 as real
        }),
{
    let gamma = before.config.gamma;
    let g = rd.of(gamma);
    let s = rd.slack;
    let rewards = rewards_in_play(before, reward);
    let total = rewards.len();
    let waiting = waiting_with(before.td_buffer@, previous.rewarded(reward));
    let n = (total - k) as nat;
    let m = total as real;
    let e = return_error(s, bound, total);
    assert(e >= 0 as real && (s + s) * m >= 0 as real && (s + s) * (n as real) <= (s + s) * m
        && bound * m >= 0 as real && (bound + s + s) * (m + 1 as real) >= bound * m + bound)
        by (nonlinear_arith)
        requires
            s >= 0 as real,
            bound >= 0 as real,
            m >= 0 as real,
            n as real <= m,
            m == total as real,
            e == m * (m * s * bound + s + s),
    ;
    assert((total + 1) as real == m + 1 as real);
    powers_stay_small(g, n);
    assert(s * m >= 0 as real) by (nonlinear_arith)
        requires
            s >= 0 as real,
            m >= 0 as real,
    ;
    assert(rd.shows(L::power(gamma, n), real_pow(g, n), s));
    if before.config.td_steps == 0 {
        assert(rewards.skip(0) =~= rewards);
        let xs = rd.all(rewards);
        assert(xs.drop_last() =~= Seq::empty());
        assert(real_pow(g, 0) == 1 as real);
        assert(real_pow(g, 1) == g * real_pow(g, 0));
        let x = rd.of(reward);
        assert((1 as real) * x == x && g * (1 as real) == g) by (nonlinear_arith);
        assert(discounted_sum(g, xs.drop_last()) == 0 as real);
        assert(rewards[0].finite());
    } else {
        assert(waiting_rewards(waiting) =~= rewards);
        if terminal {
            returns_discount_what_lies_ahead::<L>(
                rd,
                gamma,
                rewards,
                Some(Scalar::zero()),
                k,
                bound,
            );
            let p = real_pow(g, n);
            assert(p * (0 as real) == 0 as real) by (nonlinear_arith);
        } else {
            assert(k == 0);
            assert(rewards.skip(0) =~= rewards);
            return_over_steps_is_the_discounted_sum::<L>(rd, gamma, rewards, bound);
        }
    }
}

/// Each plasticity machine follows its own signal: the averages of the actor's move toward the
/// surprise of the step, those of the critic's toward the size of the last TD error. Where a
/// machine is woken by the other its averages are kept all the same.
pub proof fn machines_follow_their_signals<L: LinAlg>(
    rd: Reading,
    before: PcActorCritic<L>,
    after: PcActorCritic<L>,
    surprise: Scalar,
    bound: real,
)
    requires
        reads::<L>(rd),
        reads_order(rd),
        reads_quotients::<L>(rd),
        settled(before, after, surprise),
        before.actor_hysteresis is Some,
        before.critic_hysteresis is Some,
        surprise.finite(),
        before.last_td_error.finite(),
        sized(rd.of(surprise), bound),
        sized(rd.of(before.last_td_error), bound),
        ({
            let a = before.actor_hysteresis->0.fast;
            let c = before.critic_hysteresis->0.fast;
            &&& a.value.finite() && c.value.finite()
            &&& sized(rd.of(a.value), bound) && sized(rd.of(c.value), bound)
            &&& a.window > 0 && c.window > 0
            &&& a.k < u64::MAX && c.k < u64::MAX
            &&& taking_part(a) <= rd.top && taking_part(c) <= rd.top
        }),
        bound + bound + bound + rd.slack + rd.slack <= rd.top,
    ensures
        after.actor_hysteresis is Some,
        after.critic_hysteresis is Some,
        ({
            let a = before.actor_hysteresis->0.fast;
            let c = before.critic_hysteresis->0.fast;
            let x = rd.of(a.value);
            let y = rd.of(c.value);
            let error = rd.of(before.last_td_error);
            let size = if error < 0 as real {
                -error
            } else {
                error
            };
            &&& near(
                (rd.of(after.actor_hysteresis->0.fast.value) - x) * taking_part(a),
                rd.of(surprise) - x,
                rd.slack + (rd.slack + rd.slack) * taking_part(a),
            )
            &&& near(
                (rd.of(after.critic_hysteresis->0.fast.value) - y) * taking_part(c),
                size - y,
                rd.slack + (rd.slack + rd.slack) * taking_part(c),
            )
        }),
{
    let signal = before.last_td_error.magnitude_of();
    assert(signal.finite());
    assert(before.last_td_error.below(Scalar::zero()) <==> rd.of(before.last_td_error) < 0 as real)
        by {
        assert(Scalar::zero().finite());
    }
    if before.last_td_error.bits >= SIGN_BITS {
        assert(signal == before.last_td_error.negated());
        assert(!Scalar::zero().below(before.last_td_error));
    }
    assert(after.actor_plasticity().machine is Some);
    assert(after.critic_plasticity().machine is Some);
    sample_moves_the_average_by_its_share::<L>(
        rd,
        before.actor_hysteresis->0.fast,
        surprise,
        bound,
    );
    sample_moves_the_average_by_its_share::<L>(
        rd,
        before.critic_hysteresis->0.fast,
        signal,
        bound,
    );
}

/// Episodes share no trace: whatever had been traced, once an episode has ended the trace is the same,
/// and none of the actions has a part in it.
pub proof fn episodes_share_no_trace<L: LinAlg>(
    rd: Reading,
    a: PcActorCritic<L>,
    a_after: PcActorCritic<L>,
    b: PcActorCritic<L>,
    b_after: PcActorCritic<L>,
    state: Seq<Scalar>,
    action: usize,
    infer: InferResult<L>,
    mask: Option<Vec<usize>>,
)
    requires
        reads::<L>(rd),
        step_kept(a, a_after, state, action, infer, mask, true),
        step_kept(b, b_after, state, action, infer, mask, true),
        a.actor_trace@.len() == b.actor_trace@.len(),
    ensures
        a_after.actor_trace@ == b_after.actor_trace@,
        a_after.actor_trace@.len() == a.actor_trace@.len(),
        forall|i: int|
            0 <= i < a_after.actor_trace@.len() ==> rd.of(#[trigger] a_after.actor_trace@[i])
                == 0 as real,
{
}

} // verus!
