//! Step-by-step operation against acting and learning in separate calls.

use rand::rngs::StdRng;
use vstd::prelude::*;

use crate::error::PcError;
use crate::linalg::LinAlg;
use crate::network_ops::{
    actor_moved, critic_moved, inferred, selected, valued, Networks, SelectionMode,
};
use crate::networks::{layer_views, InferResult, MlpCritic, PcActor};
use crate::pc_actor_critic::agent::PcActorCritic;
use crate::pc_actor_critic::bookkeeping::update_finished;
use crate::pc_actor_critic::fisher::fisher_views;
use crate::pc_actor_critic::fitting::{actor_kept, critic_kept, replacing_keeps_layers};
use crate::pc_actor_critic::learning::{actor_planned, ActorUpdate, LearnStep};
use crate::pc_actor_critic::online::{learned, learned_along, LearnRecord};
use crate::pc_actor_critic::running::{
    job_done, jobs_done, jobs_done_along, stepped, stepped_along, JobsRecord, StepRecord,
};
use crate::pc_actor_critic::scaling::LearnMode;
use crate::pc_actor_critic::stepping::{every_action, settled};
use crate::scalar::Scalar;

verus! {

impl<L: LinAlg> PcActorCritic<L> {
    /// The agent with everything that learning from a step does not look at taken from another:
    /// random numbers, replay memory, the steps that wait and the length of the cooldown.
    pub open spec fn with_surroundings_of(self, other: Self) -> Self {
        PcActorCritic {
            rng: other.rng,
            replay_buffer: other.replay_buffer,
            replay_clamp_count: other.replay_clamp_count,
            state_prev: other.state_prev,
            action_prev: other.action_prev,
            infer_prev: other.infer_prev,
            valid_actions_prev: other.valid_actions_prev,
            td_buffer: other.td_buffer,
            rollback_hard_cooldown_steps: other.rollback_hard_cooldown_steps,
            ..self
        }
    }
}

impl<'a, L: LinAlg> LearnStep<'a, L> {
    /// The same step, wherever its lists are kept.
    pub open spec fn same_step(self, other: LearnStep<L>) -> bool {
        &&& self.state@ == other.state@
        &&& *self.infer == *other.infer
        &&& self.action == other.action
        &&& self.valid_actions@ == other.valid_actions@
        &&& self.reward == other.reward
        &&& self.next_state@ == other.next_state@
        &&& *self.next_infer == *other.next_infer
        &&& self.done == other.done
        &&& self.gamma == other.gamma
        &&& self.pre_v_s == other.pre_v_s
        &&& self.pre_td_error == other.pre_td_error
        &&& self.mode == other.mode
    }
}

proof fn same_errors<L: LinAlg>(
    a: PcActorCritic<L>,
    b: PcActorCritic<L>,
    step: LearnStep<L>,
    twin: LearnStep<L>,
    td_error: Scalar,
    polyak: Seq<Scalar>,
    champion: Seq<Scalar>,
    delta: Seq<Scalar>,
)
    requires
        b == a.with_surroundings_of(b),
        step.same_step(twin),
    ensures
        b.distilled(b.policy_gradient(twin, td_error), twin, polyak, champion) == a.distilled(
            a.policy_gradient(step, td_error),
            step,
            polyak,
            champion,
        ),
        b.trace_after(twin) == a.trace_after(step),
        b.importance_error(twin, delta) == a.importance_error(step, delta),
{
}

proof fn same_plan<L: LinAlg>(
    before: PcActorCritic<L>,
    after: PcActorCritic<L>,
    other: PcActorCritic<L>,
    step: LearnStep<L>,
    twin: LearnStep<L>,
    td_error: Scalar,
    polyak: Seq<Scalar>,
    champion: Seq<Scalar>,
    update: ActorUpdate<L>,
)
    requires
        actor_planned(before, after, step, td_error, polyak, champion, update),
        other == before.with_surroundings_of(other),
        step.same_step(twin),
    ensures
        actor_planned(
            other,
            after.with_surroundings_of(other),
            twin,
            td_error,
            polyak,
            champion,
            update,
        ),
{
    same_errors(before, other, step, twin, td_error, polyak, champion, update.delta@);
    assert(other.actor_decay() =~= before.actor_decay());
}

proof fn same_finish<L: LinAlg>(
    before: PcActorCritic<L>,
    after: PcActorCritic<L>,
    other: PcActorCritic<L>,
    step: LearnStep<L>,
    twin: LearnStep<L>,
    update: ActorUpdate<L>,
)
    requires
        update_finished(before, after, step, update),
        other == before.with_surroundings_of(other),
        step.same_step(twin),
    ensures
        update_finished(other, after.with_surroundings_of(other), twin, update),
{
    if update.before is Some {
        let b = layer_views(update.before->0@);
        assert(other.consolidated_layers(b, update.scale, update.decay@)
            =~= before.consolidated_layers(b, update.scale, update.decay@));
    }
}

proof fn same_verdict<L: LinAlg>(
    before: PcActorCritic<L>,
    other: PcActorCritic<L>,
    step: LearnStep<L>,
    twin: LearnStep<L>,
    record: LearnRecord<L>,
    moved: LearnRecord<L>,
)
    requires
        other == before.with_surroundings_of(other),
        step.same_step(twin),
        moved.polyak == record.polyak,
        moved.champion == record.champion,
    ensures
        other.answered(twin, moved) == before.answered(step, record),
{
    assert(other.actor_decay() =~= before.actor_decay());
}

/// What is learned from a step does not depend on random numbers, replay memory, steps that
/// wait or the length of the cooldown: in other surroundings the same is learned, and they stay
/// as they are.
pub proof fn learning_ignores_surroundings<L: LinAlg, N: Networks<L>>(
    nets: &N,
    before: PcActorCritic<L>,
    after: PcActorCritic<L>,
    step: LearnStep<L>,
    result: Result<Scalar, PcError>,
    other: PcActorCritic<L>,
    twin: LearnStep<L>,
)
    requires
        learned(nets, before, after, step, result),
        other == before.with_surroundings_of(other),
        step.same_step(twin),
    ensures
        learned(nets, other, after.with_surroundings_of(other), twin, result),
{
    let record: LearnRecord<L> = choose|record: LearnRecord<L>|
        #[trigger] learned_along(nets, before, after, step, result, record);
    let moved = LearnRecord { planned: record.planned.with_surroundings_of(other), ..record };
    let td_error = step.td_error(record.v_s, record.v_next);
    let choices = step.valid_actions@.len();
    same_verdict(before, other, step, twin, record, moved);
    if td_error.finite() && before.answered(step, record) {
        let start = before.counted(step.mode);
        let critic = critic_kept(record.critic.0, before.critic);
        let valuing = PcActorCritic { critic, ..start };
        let other_valuing = PcActorCritic { critic, ..other.counted(twin.mode) };
        let actor = actor_kept(record.actor, before.actor);
        let acting = PcActorCritic { actor, ..record.planned };
        let other_acting = PcActorCritic { actor, ..moved.planned };
        let polyak = if before.drawn_to_polyak(choices) {
            L::seq(record.polyak.y_conv)
        } else {
            Seq::empty()
        };
        let champion = if before.drawn_to_champion(choices) {
            L::seq(record.champion.y_conv)
        } else {
            Seq::empty()
        };
        assert(other_valuing == valuing.with_surroundings_of(other_valuing));
        same_plan(
            valuing,
            record.planned,
            other_valuing,
            step,
            twin,
            td_error,
            polyak,
            champion,
            record.update,
        );
        assert(moved.planned == record.planned.with_surroundings_of(other_valuing));
        assert(other_acting == acting.with_surroundings_of(other_acting));
        same_finish(acting, after, other_acting, step, twin, record.update);
        assert(after.with_surroundings_of(other) == after.with_surroundings_of(other_acting));
    }
    assert(learned_along(
        nets,
        other,
        after.with_surroundings_of(other),
        twin,
        result,
        moved,
    ));
}

proof fn lesson_keeps_machines<L: LinAlg, N: Networks<L>>(
    nets: &N,
    before: PcActorCritic<L>,
    after: PcActorCritic<L>,
    step: LearnStep<L>,
    result: Result<Scalar, PcError>,
)
    requires
        learned(nets, before, after, step, result),
    ensures
        after.actor_hysteresis == before.actor_hysteresis,
        after.critic_hysteresis == before.critic_hysteresis,
{
    let record: LearnRecord<L> = choose|record: LearnRecord<L>|
        #[trigger] learned_along(nets, before, after, step, result, record);
}

/// Two steps of an episode, with one-step learning and without plasticity machines, learn what
/// separate calls learn: an act at each observation, and one learning step in between. Whatever
/// networks two steps end with, acting and learning from the same inferences and the same action
/// may end with, wherever the second act leaves the generator.
pub proof fn two_steps_learn_like_separate_calls<L: LinAlg, N: Networks<L>>(
    nets: &N,
    before: PcActorCritic<L>,
    middle: PcActorCritic<L>,
    after: PcActorCritic<L>,
    state: Seq<Scalar>,
    first_reward: Scalar,
    action: usize,
    next_state: Seq<Scalar>,
    reward: Scalar,
    terminal: bool,
    next_action: usize,
    record: StepRecord<L>,
    step: LearnStep<L>,
    left: StdRng,
)
    requires
        !before.has_previous(),
        before.config.td_steps == 0,
        before.actor_hysteresis is None,
        before.critic_hysteresis is None,
        stepped(
            nets,
            before,
            middle,
            state,
            every_action(before.config.actor.output_size as nat),
            first_reward,
            false,
            None,
            action,
        ),
        stepped_along(
            nets,
            middle,
            after,
            next_state,
            every_action(before.config.actor.output_size as nat),
            reward,
            terminal,
            None,
            next_action,
            record,
        ),
        step.state@ == state,
        *step.infer == middle.infer_prev->0,
        step.action == action,
        step.valid_actions@ == every_action(before.config.actor.output_size as nat),
        step.reward == reward,
        step.next_state@ == next_state,
        *step.next_infer == record.current,
        step.done == terminal,
        step.gamma == before.config.gamma,
        step.pre_v_s is None,
        step.pre_td_error is None,
        step.mode == LearnMode::Online,
    ensures
        inferred(nets, &before.backend, &before.actor, state, *step.infer),
        selected(
            nets,
            &before.backend,
            &before.actor,
            &step.infer.y_conv,
            every_action(before.config.actor.output_size as nat),
            SelectionMode::Training,
            &before.rng,
            (action, middle.rng),
        ),
        inferred(nets, &before.backend, &before.actor, next_state, *step.next_infer),
        exists|learner: PcActorCritic<L>, result: Result<Scalar, PcError>|
            {
                &&& #[trigger] learned(
                    nets,
                    PcActorCritic { rng: left, ..before },
                    learner,
                    step,
                    result,
                )
                &&& learner.actor == after.actor
                &&& learner.critic == after.critic
            },
{
    let all = every_action(before.config.actor.output_size as nat);
    let opening: StepRecord<L> = choose|opening: StepRecord<L>|
        #[trigger] stepped_along(
            nets,
            before,
            middle,
            state,
            all,
            first_reward,
            false,
            None,
            action,
            opening,
        );
    assert(middle.has_previous());
    let jobs = record.jobs;
    assert(jobs_done(
        nets,
        record.planned,
        record.trained,
        jobs,
        record.values_first,
        next_state,
        record.current,
    ));
    let course: JobsRecord<L> = choose|course: JobsRecord<L>|
        #[trigger] jobs_done_along(
            nets,
            record.planned,
            record.trained,
            jobs,
            record.values_first,
            next_state,
            record.current,
            course,
        );
    assert(jobs.len() == 1);
    let job = jobs[0];
    assert(job_done(
        nets,
        record.planned,
        record.trained,
        job,
        None,
        next_state,
        record.current,
    ));
    let (made, end, result) = choose|
        made: LearnStep<L>,
        end: PcActorCritic<L>,
        result: Result<Scalar, PcError>,
    |
        {
            &&& job.makes(made, None, next_state, record.current)
            &&& #[trigger] learned(nets, record.planned, end, made, result)
            &&& settled(end, record.trained, job.transition.infer.surprise_score)
        };
    lesson_keeps_machines(nets, record.planned, end, made, result);
    let learner = PcActorCritic { rng: left, ..before };
    assert(learner == record.planned.with_surroundings_of(learner));
    assert(made.same_step(step));
    learning_ignores_surroundings(nets, record.planned, end, made, result, learner, step);
}

/// Networks that answer the same question the same way every time: inference, choice of an
/// action, value and both steps of gradient descent.
pub open spec fn answers_alike<L: LinAlg, N: Networks<L>>(nets: &N) -> bool {
    &&& forall|
        b: &L,
        actor: &PcActor<L>,
        input: Seq<Scalar>,
        x: InferResult<L>,
        y: InferResult<L>,
    | #[trigger]
        inferred(nets, b, actor, input, x) && #[trigger] inferred(nets, b, actor, input, y) ==> x
            == y
    &&& forall|
        b: &L,
        actor: &PcActor<L>,
        output: &L::Vector,
        open: Seq<usize>,
        mode: SelectionMode,
        rng: &StdRng,
        x: (usize, StdRng),
        y: (usize, StdRng),
    | #[trigger]
        selected(nets, b, actor, output, open, mode, rng, x) && #[trigger] selected(
            nets,
            b,
            actor,
            output,
            open,
            mode,
            rng,
            y,
        ) ==> x == y
    &&& forall|b: &L, critic: &MlpCritic<L>, input: Seq<Scalar>, x: Scalar, y: Scalar| #[trigger]
        valued(nets, b, critic, input, x) && #[trigger] valued(nets, b, critic, input, y) ==> x
            == y
    &&& forall|
        b: &L,
        critic: &MlpCritic<L>,
        input: Seq<Scalar>,
        target: Scalar,
        scale: Scalar,
        decay: Seq<Scalar>,
        x: (MlpCritic<L>, Scalar),
        y: (MlpCritic<L>, Scalar),
    | #[trigger]
        critic_moved(nets, b, critic, input, target, scale, decay, x) && #[trigger] critic_moved(
            nets,
            b,
            critic,
            input,
            target,
            scale,
            decay,
            y,
        ) ==> x == y
    &&& forall|
        b: &L,
        actor: &PcActor<L>,
        delta: Seq<Scalar>,
        infer: &InferResult<L>,
        input: Seq<Scalar>,
        scale: Scalar,
        decay: Seq<Scalar>,
        x: PcActor<L>,
        y: PcActor<L>,
    | #[trigger]
        actor_moved(nets, b, actor, delta, infer, input, scale, decay, x)
            && #[trigger] actor_moved(nets, b, actor, delta, infer, input, scale, decay, y) ==> x
            == y
}

proof fn same_layers<L: LinAlg>(
    a: PcActorCritic<L>,
    b: PcActorCritic<L>,
    step: LearnStep<L>,
    x: ActorUpdate<L>,
    y: ActorUpdate<L>,
    after_a: PcActorCritic<L>,
    after_b: PcActorCritic<L>,
)
    requires
        a.actor == b.actor,
        a.config == b.config,
        fisher_views(a.actor_fisher@) == fisher_views(b.actor_fisher@),
        x.before is Some ==> a.actor_fisher@.len() == a.actor.layers@.len(),
        x.scale == y.scale,
        x.decay@ == y.decay@,
        x.before is Some <==> y.before is Some,
        x.before is Some ==> layer_views(x.before->0@) == layer_views(y.before->0@),
        update_finished(a, after_a, step, x),
        update_finished(b, after_b, step, y),
    ensures
        after_a.actor.weights() == after_b.actor.weights(),
{
    if x.before is Some {
        let before = layer_views(x.before->0@);
        let p = a.consolidated_layers(before, x.scale, x.decay@);
        let q = b.consolidated_layers(before, x.scale, x.decay@);
        assert(fisher_views(a.actor_fisher@).len() == a.actor_fisher@.len());
        assert(fisher_views(b.actor_fisher@).len() == b.actor_fisher@.len());
        assert forall|i: int| 0 <= i < p.len() implies p[i] == q[i] by {
            assert(fisher_views(a.actor_fisher@)[i] == a.actor_fisher@[i]@);
            assert(fisher_views(b.actor_fisher@)[i] == b.actor_fisher@[i]@);
        }
        assert(p =~= q);
    }
}

/// With networks that answer alike, learning from the same step twice from the same start ends
/// with the same networks and the same loss.
pub proof fn same_step_teaches_the_same<L: LinAlg, N: Networks<L>>(
    nets: &N,
    before: PcActorCritic<L>,
    step: LearnStep<L>,
    after_a: PcActorCritic<L>,
    result_a: Result<Scalar, PcError>,
    after_b: PcActorCritic<L>,
    result_b: Result<Scalar, PcError>,
)
    requires
        answers_alike(nets),
        learned(nets, before, after_a, step, result_a),
        learned(nets, before, after_b, step, result_b),
    ensures
        after_a.actor.weights() == after_b.actor.weights(),
        after_a.critic == after_b.critic,
        result_a is Ok <==> result_b is Ok,
        result_a is Ok ==> result_a == result_b,
{
    let a: LearnRecord<L> = choose|a: LearnRecord<L>|
        #[trigger] learned_along(nets, before, after_a, step, result_a, a);
    let b: LearnRecord<L> = choose|b: LearnRecord<L>|
        #[trigger] learned_along(nets, before, after_b, step, result_b, b);
    let td_error = step.td_error(a.v_s, a.v_next);
    assert(step.target(a.v_s, a.v_next) == step.target(b.v_s, b.v_next));
    assert(td_error == step.td_error(b.v_s, b.v_next));
    if td_error.finite() {
        assert(before.answered(step, a) == before.answered(step, b));
        if before.answered(step, a) {
            assert(a.critic == b.critic);
            let critic = critic_kept(a.critic.0, before.critic);
            let valuing = PcActorCritic { critic, ..before.counted(step.mode) };
            assert(a.update.delta@ == b.update.delta@);
            assert(a.actor == b.actor);
            let actor = actor_kept(a.actor, before.actor);
            replacing_keeps_layers(actor, before.actor);
            assert(fisher_views(a.planned.actor_fisher@).len() == a.planned.actor_fisher@.len());
            same_layers(
                PcActorCritic { actor, ..a.planned },
                PcActorCritic { actor, ..b.planned },
                step,
                a.update,
                b.update,
                after_a,
                after_b,
            );
        }
    }
}

/// With networks that answer alike, two steps of an episode end with the networks that an act
/// at each observation and one learning step in between end with, and with the same first
/// action, where learning takes one step and there are no plasticity machines.
pub proof fn two_steps_equal_separate_calls<L: LinAlg, N: Networks<L>>(
    nets: &N,
    before: PcActorCritic<L>,
    middle: PcActorCritic<L>,
    after: PcActorCritic<L>,
    state: Seq<Scalar>,
    first_reward: Scalar,
    action: usize,
    next_state: Seq<Scalar>,
    reward: Scalar,
    terminal: bool,
    next_action: usize,
    step: LearnStep<L>,
    generator: StdRng,
    left: StdRng,
    learner: PcActorCritic<L>,
    result: Result<Scalar, PcError>,
)
    requires
        answers_alike(nets),
        !before.has_previous(),
        before.config.td_steps == 0,
        before.actor_hysteresis is None,
        before.critic_hysteresis is None,
        stepped(
            nets,
            before,
            middle,
            state,
            every_action(before.config.actor.output_size as nat),
            first_reward,
            false,
            None,
            action,
        ),
        stepped(
            nets,
            middle,
            after,
            next_state,
            every_action(before.config.actor.output_size as nat),
            reward,
            terminal,
            None,
            next_action,
        ),
        step.state@ == state,
        inferred(nets, &before.backend, &before.actor, state, *step.infer),
        selected(
            nets,
            &before.backend,
            &before.actor,
            &step.infer.y_conv,
            every_action(before.config.actor.output_size as nat),
            SelectionMode::Training,
            &before.rng,
            (step.action, generator),
        ),
        step.valid_actions@ == every_action(before.config.actor.output_size as nat),
        step.reward == reward,
        step.next_state@ == next_state,
        inferred(nets, &before.backend, &before.actor, next_state, *step.next_infer),
        step.done == terminal,
        step.gamma == before.config.gamma,
        step.pre_v_s is None,
        step.pre_td_error is None,
        step.mode == LearnMode::Online,
        learned(nets, (PcActorCritic { rng: left, ..before }), learner, step, result),
    ensures
        action == step.action,
        after.actor.weights() == learner.actor.weights(),
        after.critic == learner.critic,
{
    let all = every_action(before.config.actor.output_size as nat);
    let opening: StepRecord<L> = choose|opening: StepRecord<L>|
        #[trigger] stepped_along(
            nets,
            before,
            middle,
            state,
            all,
            first_reward,
            false,
            None,
            action,
            opening,
        );
    let record: StepRecord<L> = choose|record: StepRecord<L>|
        #[trigger] stepped_along(
            nets,
            middle,
            after,
            next_state,
            all,
            reward,
            terminal,
            None,
            next_action,
            record,
        );
    assert(opening.current == *step.infer);
    assert((action, opening.rng) == (step.action, generator));
    assert(record.current == *step.next_infer);
    two_steps_learn_like_separate_calls(
        nets,
        before,
        middle,
        after,
        state,
        first_reward,
        action,
        next_state,
        reward,
        terminal,
        next_action,
        record,
        step,
        left,
    );
    let start = PcActorCritic { rng: left, ..before };
    let (twin, other) = choose|twin: PcActorCritic<L>, other: Result<Scalar, PcError>|
        {
            &&& #[trigger] learned(nets, start, twin, step, other)
            &&& twin.actor == after.actor
            &&& twin.critic == after.critic
        };
    same_step_teaches_the_same(nets, start, step, learner, result, twin, other);
}

} // verus!
