//! What becomes of the champion over whole runs.

use vstd::prelude::*;

use crate::error::PcError;
use crate::linalg::LinAlg;
use crate::network_ops::Networks;
use crate::networks::InferResult;
use crate::pc_actor_critic::agent::PcActorCritic;
use crate::pc_actor_critic::control::{
    champion_named, rollback_returns_to_champion, rolled_back_hard, rolled_back_soft,
};
use crate::pc_actor_critic::episode::{episode_learned, episode_learned_along, EpisodeRecord};
use crate::pc_actor_critic::learning::LearnStep;
use crate::pc_actor_critic::online::{learned, learning_step_spares_the_champion};
use crate::pc_actor_critic::rehearsal::raw_replay_error;
use crate::pc_actor_critic::rehearsing::{
    batch_learned, batch_learned_along, replayed, replayed_along, BatchRecord, ReplayAnswers,
};
use crate::pc_actor_critic::replay::{Action, ReplayTransition};
use crate::pc_actor_critic::running::{
    job_done, jobs_done, jobs_done_along, stepped, stepped_along, JobsRecord, StepRecord,
};
use crate::pc_actor_critic::stepping::{settled, LearningJob};
use crate::pc_actor_critic::trajectory::TrajectoryStep;
use crate::scalar::Scalar;

verus! {

/// The agent learned from one step.
pub open spec fn took_a_lesson<L: LinAlg, N: Networks<L>>(
    nets: &N,
    before: PcActorCritic<L>,
    after: PcActorCritic<L>,
) -> bool {
    exists|step: LearnStep<L>, result: Result<Scalar, PcError>|
        #[trigger] learned(nets, before, after, step, result)
}

/// The agent took a step of an episode.
pub open spec fn took_a_step<L: LinAlg, N: Networks<L>>(
    nets: &N,
    before: PcActorCritic<L>,
    after: PcActorCritic<L>,
) -> bool {
    exists|
        state: Seq<Scalar>,
        open: Seq<usize>,
        reward: Scalar,
        terminal: bool,
        mask: Option<Vec<usize>>,
        action: usize,
    | #[trigger]
        stepped(nets, before, after, state, open, reward, terminal, mask, action)
}

/// The agent learned from a batch out of its replay memory.
pub open spec fn rehearsed<L: LinAlg, N: Networks<L>>(
    nets: &N,
    before: PcActorCritic<L>,
    after: PcActorCritic<L>,
) -> bool {
    exists|batch_size: nat, result: Result<(), PcError>|
        #[trigger] batch_learned(nets, before, after, batch_size, result)
}

/// The agent learned from a finished episode.
pub open spec fn went_over_an_episode<L: LinAlg, N: Networks<L>>(
    nets: &N,
    before: PcActorCritic<L>,
    after: PcActorCritic<L>,
) -> bool {
    exists|trajectory: Seq<TrajectoryStep<L>>, r: Scalar|
        #[trigger] episode_learned(nets, before, after, trajectory, r)
}

/// The agent acted without learning, forgot the step before, or had its replay memory or its
/// cooldown changed.
pub open spec fn was_handled<L: LinAlg>(
    before: PcActorCritic<L>,
    after: PcActorCritic<L>,
) -> bool {
    after == (PcActorCritic {
        rng: after.rng,
        state_prev: after.state_prev,
        action_prev: after.action_prev,
        infer_prev: after.infer_prev,
        valid_actions_prev: after.valid_actions_prev,
        td_buffer: after.td_buffer,
        actor_trace: after.actor_trace,
        replay_buffer: after.replay_buffer,
        rollback_hard_cooldown_steps: after.rollback_hard_cooldown_steps,
        ..before
    })
}

/// The agent was called once: it learned, acted, recovered or was handled, but no champion was
/// named and no configuration applied.
pub open spec fn carried_on<L: LinAlg, N: Networks<L>>(
    nets: &N,
    before: PcActorCritic<L>,
    after: PcActorCritic<L>,
) -> bool {
    ||| took_a_lesson(nets, before, after)
    ||| took_a_step(nets, before, after)
    ||| rehearsed(nets, before, after)
    ||| went_over_an_episode(nets, before, after)
    ||| rolled_back_soft(before, after)
    ||| rolled_back_hard(before, after)
    ||| was_handled(before, after)
}

/// An agent over a run of such calls: before the first, between them and after the last.
pub open spec fn run_of<L: LinAlg, N: Networks<L>>(
    nets: &N,
    agents: Seq<PcActorCritic<L>>,
) -> bool {
    &&& agents.len() > 0
    &&& forall|k: int|
        0 <= k < agents.len() - 1 ==> carried_on(nets, #[trigger] agents[k], agents[k + 1])
}

proof fn jobs_spare_the_champion<L: LinAlg, N: Networks<L>>(
    nets: &N,
    before: PcActorCritic<L>,
    after: PcActorCritic<L>,
    jobs: Seq<LearningJob<L>>,
    values_first: bool,
    next_state: Seq<Scalar>,
    current: InferResult<L>,
    record: JobsRecord<L>,
    n: nat,
)
    requires
        jobs_done_along(nets, before, after, jobs, values_first, next_state, current, record),
        n <= jobs.len(),
    ensures
        record.agents[n as int].frozen_champion == before.frozen_champion,
    decreases n,
{
    if n > 0 {
        let k = n - 1;
        jobs_spare_the_champion(
            nets,
            before,
            after,
            jobs,
            values_first,
            next_state,
            current,
            record,
            k as nat,
        );
        let job = jobs[k];
        let value = if values_first {
            Some(record.values[k])
        } else {
            None
        };
        let a = record.agents[k];
        let b = record.agents[k + 1];
        assert(job_done(nets, a, b, job, value, next_state, current));
        let (step, middle, result) = choose|
            step: LearnStep<L>,
            middle: PcActorCritic<L>,
            result: Result<Scalar, PcError>,
        |
            {
                &&& job.makes(step, value, next_state, current)
                &&& #[trigger] learned(nets, a, middle, step, result)
                &&& settled(middle, b, job.transition.infer.surprise_score)
            };
        learning_step_spares_the_champion(nets, a, middle, step, result);
    }
}

proof fn step_spares_the_champion<L: LinAlg, N: Networks<L>>(
    nets: &N,
    before: PcActorCritic<L>,
    after: PcActorCritic<L>,
    state: Seq<Scalar>,
    open: Seq<usize>,
    reward: Scalar,
    terminal: bool,
    mask: Option<Vec<usize>>,
    action: usize,
)
    requires
        stepped(nets, before, after, state, open, reward, terminal, mask, action),
    ensures
        after.frozen_champion == before.frozen_champion,
{
    let s: StepRecord<L> = choose|s: StepRecord<L>|
        #[trigger] stepped_along(
            nets,
            before,
            after,
            state,
            open,
            reward,
            terminal,
            mask,
            action,
            s,
        );
    if s.previous is Some {
        assert(jobs_done(nets, s.planned, s.trained, s.jobs, s.values_first, state, s.current));
        let j: JobsRecord<L> = choose|j: JobsRecord<L>|
            #[trigger] jobs_done_along(
                nets,
                s.planned,
                s.trained,
                s.jobs,
                s.values_first,
                state,
                s.current,
                j,
            );
        jobs_spare_the_champion(
            nets,
            s.planned,
            s.trained,
            s.jobs,
            s.values_first,
            state,
            s.current,
            j,
            s.jobs.len(),
        );
    }
}

proof fn replayed_step_spares_the_champion<L: LinAlg, N: Networks<L>>(
    nets: &N,
    before: PcActorCritic<L>,
    after: PcActorCritic<L>,
    t: ReplayTransition,
    v_s: Scalar,
    result: Result<Scalar, PcError>,
)
    requires
        replayed(nets, before, after, t, v_s, result),
    ensures
        after.frozen_champion == before.frozen_champion,
{
    match t.action {
        Action::Discrete(action) => {
            let (answers, step) = choose|answers: ReplayAnswers<L>, step: LearnStep<L>|
                #[trigger] replayed_along(
                    nets,
                    before,
                    after,
                    t,
                    action,
                    v_s,
                    result,
                    answers,
                    step,
                );
            let raw = raw_replay_error::<L>(
                before.config.gamma,
                t.reward,
                t.done,
                answers.v_next,
                v_s,
            );
            learning_step_spares_the_champion(
                nets,
                before.clamp_counted(raw),
                after,
                step,
                result,
            );
        },
        Action::Continuous(_) => {},
    }
}

proof fn batch_spares_the_champion<L: LinAlg, N: Networks<L>>(
    nets: &N,
    before: PcActorCritic<L>,
    after: PcActorCritic<L>,
    batch_size: nat,
    result: Result<(), PcError>,
    record: BatchRecord<L>,
    n: nat,
)
    requires
        batch_learned_along(nets, before, after, batch_size, result, record),
        n <= record.results.len(),
    ensures
        record.agents[n as int].frozen_champion == before.frozen_champion,
    decreases n,
{
    if n > 0 {
        let k = n - 1;
        batch_spares_the_champion(nets, before, after, batch_size, result, record, k as nat);
        let one = record.results[k];
        replayed_step_spares_the_champion(
            nets,
            record.agents[k],
            record.agents[k + 1],
            record.batch[k],
            record.values[k],
            one,
        );
    }
}

proof fn episode_spares_the_champion<L: LinAlg, N: Networks<L>>(
    nets: &N,
    before: PcActorCritic<L>,
    after: PcActorCritic<L>,
    trajectory: Seq<TrajectoryStep<L>>,
    r: Scalar,
    record: EpisodeRecord<L>,
    n: nat,
)
    requires
        episode_learned_along(nets, before, after, trajectory, r, record),
        n <= trajectory.len(),
    ensures
        record.agents[n as int].frozen_champion == before.frozen_champion,
    decreases n,
{
    if n > 0 {
        let k = n - 1;
        episode_spares_the_champion(nets, before, after, trajectory, r, record, k as nat);
        let step = trajectory[k];
    }
}

/// No call but naming a champion and applying a configuration touches the champion, whatever
/// the networks answer.
pub proof fn the_champion_is_spared<L: LinAlg, N: Networks<L>>(
    nets: &N,
    before: PcActorCritic<L>,
    after: PcActorCritic<L>,
)
    requires
        carried_on(nets, before, after),
    ensures
        after.frozen_champion == before.frozen_champion,
{
    if took_a_lesson(nets, before, after) {
        let (step, result) = choose|step: LearnStep<L>, result: Result<Scalar, PcError>|
            #[trigger] learned(nets, before, after, step, result);
        learning_step_spares_the_champion(nets, before, after, step, result);
    } else if took_a_step(nets, before, after) {
        let (state, open, reward, terminal, mask, action) = choose|
            state: Seq<Scalar>,
            open: Seq<usize>,
            reward: Scalar,
            terminal: bool,
            mask: Option<Vec<usize>>,
            action: usize,
        | #[trigger]
            stepped(nets, before, after, state, open, reward, terminal, mask, action);
        step_spares_the_champion(
            nets,
            before,
            after,
            state,
            open,
            reward,
            terminal,
            mask,
            action,
        );
    } else if rehearsed(nets, before, after) {
        let (batch_size, result) = choose|batch_size: nat, result: Result<(), PcError>|
            #[trigger] batch_learned(nets, before, after, batch_size, result);
        let record: BatchRecord<L> = choose|record: BatchRecord<L>|
            #[trigger] batch_learned_along(nets, before, after, batch_size, result, record);
        batch_spares_the_champion(
            nets,
            before,
            after,
            batch_size,
            result,
            record,
            record.results.len(),
        );
    } else if went_over_an_episode(nets, before, after) {
        let (trajectory, r) = choose|trajectory: Seq<TrajectoryStep<L>>, r: Scalar|
            #[trigger] episode_learned(nets, before, after, trajectory, r);
        let record: EpisodeRecord<L> = choose|record: EpisodeRecord<L>|
            #[trigger] episode_learned_along(nets, before, after, trajectory, r, record);
        episode_spares_the_champion(
            nets,
            before,
            after,
            trajectory,
            r,
            record,
            trajectory.len(),
        );
    }
}

/// The champion outlives any run of learning, acting and recovery unchanged.
pub proof fn the_champion_outlives_any_run<L: LinAlg, N: Networks<L>>(
    nets: &N,
    agents: Seq<PcActorCritic<L>>,
)
    requires
        run_of(nets, agents),
    ensures
        agents.last().frozen_champion == agents[0].frozen_champion,
    decreases agents.len(),
{
    if agents.len() > 1 {
        let shorter = agents.drop_last();
        assert forall|k: int| 0 <= k < shorter.len() - 1 implies carried_on(
            nets,
            #[trigger] shorter[k],
            shorter[k + 1],
        ) by {
            assert(carried_on(nets, agents[k], agents[k + 1]));
        }
        the_champion_outlives_any_run(nets, shorter);
        let k = agents.len() - 2;
        assert(shorter.last() == agents[k]);
        the_champion_is_spared(nets, agents[k], agents[k + 1]);
    }
}

/// A hard rollback after any run of learning, acting and recovery brings back, bit for bit, the
/// weights that the champion was named with.
pub proof fn the_champion_comes_back<L: LinAlg, N: Networks<L>>(
    nets: &N,
    at_naming: PcActorCritic<L>,
    agents: Seq<PcActorCritic<L>>,
    rolled_back: PcActorCritic<L>,
)
    requires
        run_of(nets, agents),
        champion_named(at_naming, agents[0]),
        rolled_back_hard(agents.last(), rolled_back),
    ensures
        rolled_back.actor.weights() == at_naming.actor.weights(),
        rolled_back.polyak_target matches Some(p) ==> p.weights() == at_naming.actor.weights(),
{
    the_champion_outlives_any_run(nets, agents);
    rollback_returns_to_champion(at_naming, agents[0], agents.last(), rolled_back);
}

} // verus!
