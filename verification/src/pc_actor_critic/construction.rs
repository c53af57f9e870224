//! Building agents, and putting a single question to them.

use rand::rngs::StdRng;
use vstd::prelude::*;

use crate::error::PcError;
use crate::linalg::LinAlg;
use crate::network_ops::{
    chooses_open_actions, inferred, selected, Networks, SelectionMode,
};
use crate::networks::{activations, layer_views, InferResult, MlpCritic, PcActor};
use crate::pc_actor_critic::agent::{fresh_error_ema, replay_opt, PcActorCritic};
use crate::pc_actor_critic::config::PcActorCriticConfig;
use crate::pc_actor_critic::crossover::{crossing_complaint, crossing_refused, CrossoverInputs};
use crate::pc_actor_critic::persistence::{
    anchor_functions, anchor_weights, restored_from, same_learning_state, saved_agent_comes_back,
    saved_anchor, snapshot_of, SavedParts,
};
use crate::pc_actor_critic::trajectory::{matrix_ready, ActivationCache};
use crate::pc_actor_critic::validation::build_complaint;
use crate::random::seeded;
use crate::scalar::Scalar;
use crate::serializer::{
    saved_activations, saved_layer_views, AgentMetadata, PcActorWeights, SaveFile,
};

verus! {

/// An actor or the reason why there is none.
pub type ActorAnswer<L> = Result<(PcActor<L>, StdRng), PcError>;

/// A critic or the reason why there is none.
pub type CriticAnswer<L> = Result<(MlpCritic<L>, StdRng), PcError>;

/// The networks were asked for an actor and then, with the generator as it was left, for a
/// critic; the agent is assembled from both, or the first refusal is handed on.
pub open spec fn built_along<L: LinAlg, N: Networks<L>>(
    nets: &N,
    backend: L,
    config: PcActorCriticConfig,
    rng: StdRng,
    r: Result<PcActorCritic<L>, PcError>,
    actor: ActorAnswer<L>,
    critic: CriticAnswer<L>,
) -> bool {
    &&& call_ensures(N::build_actor, (nets, &backend, &config.actor, &rng), actor)
    &&& match actor {
        Err(e) => r == Err::<PcActorCritic<L>, PcError>(e),
        Ok((actor, left)) => {
            &&& call_ensures(N::build_critic, (nets, &backend, &config.critic, &left), critic)
            &&& match critic {
                Err(e) => r == Err::<PcActorCritic<L>, PcError>(e),
                Ok((critic, end)) => r matches Ok(a) && a.assembled(
                    backend,
                    config,
                    actor,
                    critic,
                    end,
                ),
            }
        },
    }
}

/// An agent was built, or refused, whatever the networks answered.
pub open spec fn built<L: LinAlg, N: Networks<L>>(
    nets: &N,
    backend: L,
    config: PcActorCriticConfig,
    rng: StdRng,
    r: Result<PcActorCritic<L>, PcError>,
) -> bool {
    exists|actor: ActorAnswer<L>, critic: CriticAnswer<L>|
        #[trigger] built_along(nets, backend, config, rng, r, actor, critic)
}

impl<L: LinAlg> PcActorCritic<L> {
    /// An agent with fresh networks, everything drawn from one seed. A configuration that is
    /// not acceptable is refused before the networks are asked for anything.
    pub fn new<N: Networks<L>>(
        nets: &N,
        backend: L,
        config: PcActorCriticConfig,
        seed: u64,
    ) -> (r: Result<Self, PcError>)
        ensures
            build_complaint::<L>(config) matches Some(text) ==> (r matches Err(e) && e.says(text)),
            build_complaint::<L>(config) is None ==> built(
                nets,
                backend,
                config,
                seeded(seed),
                r,
            ),
    {
        let rng = match Self::prepare(&config, seed) {
            Ok(rng) => rng,
            Err(e) => {
                return Err(e);
            },
        };
        let built_actor = nets.build_actor(&backend, &config.actor, &rng);
        let ghost actor_answer = built_actor;
        let ghost any: CriticAnswer<L> = arbitrary();
        let (actor, left) = match built_actor {
            Ok(x) => x,
            Err(e) => {
                assert(built_along(
                    nets,
                    backend,
                    config,
                    seeded(seed),
                    Err::<PcActorCritic<L>, PcError>(e),
                    actor_answer,
                    any,
                ));
                return Err(e);
            },
        };
        let built_critic = nets.build_critic(&backend, &config.critic, &left);
        let ghost critic_answer = built_critic;
        let (critic, end) = match built_critic {
            Ok(x) => x,
            Err(e) => {
                assert(built_along(
                    nets,
                    backend,
                    config,
                    seeded(seed),
                    Err::<PcActorCritic<L>, PcError>(e),
                    actor_answer,
                    critic_answer,
                ));
                return Err(e);
            },
        };
        let agent = Self::assemble(backend, config, actor, critic, end);
        assert(built_along(
            nets,
            backend,
            config,
            seeded(seed),
            Ok::<PcActorCritic<L>, PcError>(agent),
            actor_answer,
            critic_answer,
        ));
        Ok(agent)
    }

    /// Inference alone.
    pub fn infer<N: Networks<L>>(&self, nets: &N, input: &[Scalar]) -> (r: InferResult<L>)
        ensures
            inferred(nets, &self.backend, &self.actor, input@, r),
    {
        nets.infer(&self.backend, &self.actor, input)
    }

    /// Inference and a choice among the open actions. Only the random numbers move on.
    pub fn act<N: Networks<L>>(
        &mut self,
        nets: &N,
        input: &[Scalar],
        valid_actions: &[usize],
        mode: SelectionMode,
    ) -> (r: (usize, InferResult<L>))
        requires
            valid_actions@.len() > 0,
        ensures
            inferred(nets, &old(self).backend, &old(self).actor, input@, r.1),
            selected(
                nets,
                &old(self).backend,
                &old(self).actor,
                &r.1.y_conv,
                valid_actions@,
                mode,
                &old(self).rng,
                (r.0, final(self).rng),
            ),
            *final(self) == (PcActorCritic { rng: final(self).rng, ..*old(self) }),
    {
        let infer = nets.infer(&self.backend, &self.actor, input);
        let (action, rng) = nets.select_action(
            &self.backend,
            &self.actor,
            &infer.y_conv,
            valid_actions,
            mode,
            &self.rng,
        );
        self.rng = rng;
        (action, infer)
    }
}

/// With networks that choose among the open actions, the action of an act is one of them.
pub proof fn chosen_action_is_open<L: LinAlg, N: Networks<L>>(
    nets: &N,
    before: PcActorCritic<L>,
    infer: InferResult<L>,
    open: Seq<usize>,
    mode: SelectionMode,
    action: usize,
    left: StdRng,
)
    requires
        chooses_open_actions(nets),
        open.len() > 0,
        selected(
            nets,
            &before.backend,
            &before.actor,
            &infer.y_conv,
            open,
            mode,
            &before.rng,
            (action, left),
        ),
    ensures
        open.contains(action),
{
    let r = (action, left);
    assert(open.contains(r.0));
}

/// The networks were asked for an actor between the parents' and then, with the generator as
/// it was left, for a critic; the child starts with both and nothing else, or the first refusal
/// is handed on.
pub open spec fn crossed_along<L: LinAlg, N: Networks<L>>(
    nets: &N,
    backend: L,
    parent_a: PcActorCritic<L>,
    parent_b: PcActorCritic<L>,
    inputs: CrossoverInputs<L>,
    alpha: Scalar,
    config: PcActorCriticConfig,
    r: Result<PcActorCritic<L>, PcError>,
    actor: ActorAnswer<L>,
    critic: CriticAnswer<L>,
) -> bool {
    &&& call_ensures(
        N::cross_actors,
        (
            nets,
            &backend,
            &parent_a.actor,
            &parent_b.actor,
            &inputs.actor_a,
            &inputs.actor_b,
            alpha,
            &config.actor,
            &inputs.rng,
        ),
        actor,
    )
    &&& match actor {
        Err(e) => r == Err::<PcActorCritic<L>, PcError>(e),
        Ok((actor, left)) => {
            &&& call_ensures(
                N::cross_critics,
                (
                    nets,
                    &backend,
                    &parent_a.critic,
                    &parent_b.critic,
                    &inputs.critic_a,
                    &inputs.critic_b,
                    alpha,
                    &config.critic,
                    &left,
                ),
                critic,
            )
            &&& match critic {
                Err(e) => r == Err::<PcActorCritic<L>, PcError>(e),
                Ok((critic, end)) => {
                    &&& r matches Ok(child)
                    &&& child.at_baseline()
                    &&& child.unequipped()
                    &&& child.config == config
                    &&& child.actor == actor
                    &&& child.critic == critic
                    &&& child.rng == end
                    &&& child.backend == backend
                },
            }
        },
    }
}

/// A child was built from prepared inputs, or refused, whatever the networks answered.
pub open spec fn crossed<L: LinAlg, N: Networks<L>>(
    nets: &N,
    backend: L,
    parent_a: PcActorCritic<L>,
    parent_b: PcActorCritic<L>,
    inputs: CrossoverInputs<L>,
    alpha: Scalar,
    config: PcActorCriticConfig,
    r: Result<PcActorCritic<L>, PcError>,
) -> bool {
    exists|actor: ActorAnswer<L>, critic: CriticAnswer<L>|
        #[trigger] crossed_along(
            nets,
            backend,
            parent_a,
            parent_b,
            inputs,
            alpha,
            config,
            r,
            actor,
            critic,
        )
}

/// A child of two parents: built over a copy of the first parent's backend from what the
/// caches hold.
pub open spec fn child_of<L: LinAlg + Clone, N: Networks<L>>(
    nets: &N,
    parent_a: PcActorCritic<L>,
    parent_b: PcActorCritic<L>,
    actor_cache_a: ActivationCache<L>,
    actor_cache_b: ActivationCache<L>,
    critic_cache_a: ActivationCache<L>,
    critic_cache_b: ActivationCache<L>,
    alpha: Scalar,
    config: PcActorCriticConfig,
    seed: u64,
    r: Result<PcActorCritic<L>, PcError>,
) -> bool {
    exists|backend: L, inputs: CrossoverInputs<L>|
        {
            &&& cloned(parent_a.backend, backend)
            &&& inputs.prepared(
                actor_cache_a,
                actor_cache_b,
                critic_cache_a,
                critic_cache_b,
                seed,
            )
            &&& #[trigger] crossed(nets, backend, parent_a, parent_b, inputs, alpha, config, r)
        }
}

impl<L: LinAlg + Clone> PcActorCritic<L> {
    /// A child of two agents. Caches of different sizes and a configuration that is not
    /// acceptable are refused before the networks are asked for anything.
    pub fn crossover<N: Networks<L>>(
        nets: &N,
        parent_a: &PcActorCritic<L>,
        parent_b: &PcActorCritic<L>,
        actor_cache_a: &ActivationCache<L>,
        actor_cache_b: &ActivationCache<L>,
        critic_cache_a: &ActivationCache<L>,
        critic_cache_b: &ActivationCache<L>,
        alpha: Scalar,
        child_config: PcActorCriticConfig,
        seed: u64,
    ) -> (r: Result<Self, PcError>)
        requires
            crossing_refused(
                *actor_cache_a,
                *actor_cache_b,
                *critic_cache_a,
                *critic_cache_b,
                child_config,
            ) || {
                &&& matrix_ready(actor_cache_a.samples())
                &&& matrix_ready(actor_cache_b.samples())
                &&& matrix_ready(critic_cache_a.samples())
                &&& matrix_ready(critic_cache_b.samples())
            },
        ensures
            crossing_refused(
                *actor_cache_a,
                *actor_cache_b,
                *critic_cache_a,
                *critic_cache_b,
                child_config,
            ) ==> (r matches Err(e) && crossing_complaint(
                *actor_cache_a,
                *actor_cache_b,
                *critic_cache_a,
                *critic_cache_b,
                child_config,
                e,
            )),
            !crossing_refused(
                *actor_cache_a,
                *actor_cache_b,
                *critic_cache_a,
                *critic_cache_b,
                child_config,
            ) ==> child_of(
                nets,
                *parent_a,
                *parent_b,
                *actor_cache_a,
                *actor_cache_b,
                *critic_cache_a,
                *critic_cache_b,
                alpha,
                child_config,
                seed,
                r,
            ),
    {
        let backend = parent_a.backend.clone();
        let inputs = match Self::crossover_inputs(
            &backend,
            actor_cache_a,
            actor_cache_b,
            critic_cache_a,
            critic_cache_b,
            &child_config,
            seed,
        ) {
            Ok(i) => i,
            Err(e) => {
                return Err(e);
            },
        };
        let result = Self::cross_over(
            nets,
            backend,
            parent_a,
            parent_b,
            &inputs,
            alpha,
            child_config,
        );
        assert(crossed(
            nets,
            backend,
            *parent_a,
            *parent_b,
            inputs,
            alpha,
            child_config,
            result,
        ));
        result
    }
}

impl<L: LinAlg> PcActorCritic<L> {
    /// A child of two agents from prepared inputs.
    pub fn cross_over<N: Networks<L>>(
        nets: &N,
        backend: L,
        parent_a: &PcActorCritic<L>,
        parent_b: &PcActorCritic<L>,
        inputs: &CrossoverInputs<L>,
        alpha: Scalar,
        child_config: PcActorCriticConfig,
    ) -> (r: Result<Self, PcError>)
        ensures
            crossed(
                nets,
                backend,
                *parent_a,
                *parent_b,
                *inputs,
                alpha,
                child_config,
                r,
            ),
    {
        let crossed_actor = nets.cross_actors(
            &backend,
            &parent_a.actor,
            &parent_b.actor,
            &inputs.actor_a,
            &inputs.actor_b,
            alpha,
            &child_config.actor,
            &inputs.rng,
        );
        let ghost actor_answer = crossed_actor;
        let ghost any: CriticAnswer<L> = arbitrary();
        let (actor, left) = match crossed_actor {
            Ok(x) => x,
            Err(e) => {
                assert(crossed_along(
                    nets,
                    backend,
                    *parent_a,
                    *parent_b,
                    *inputs,
                    alpha,
                    child_config,
                    Err::<PcActorCritic<L>, PcError>(e),
                    actor_answer,
                    any,
                ));
                return Err(e);
            },
        };
        let crossed_critic = nets.cross_critics(
            &backend,
            &parent_a.critic,
            &parent_b.critic,
            &inputs.critic_a,
            &inputs.critic_b,
            alpha,
            &child_config.critic,
            &left,
        );
        let ghost critic_answer = crossed_critic;
        let (critic, end) = match crossed_critic {
            Ok(x) => x,
            Err(e) => {
                assert(crossed_along(
                    nets,
                    backend,
                    *parent_a,
                    *parent_b,
                    *inputs,
                    alpha,
                    child_config,
                    Err::<PcActorCritic<L>, PcError>(e),
                    actor_answer,
                    critic_answer,
                ));
                return Err(e);
            },
        };
        let child = Self::from_parts(child_config, actor, critic, end, backend);
        assert(crossed_along(
            nets,
            backend,
            *parent_a,
            *parent_b,
            *inputs,
            alpha,
            child_config,
            Ok::<PcActorCritic<L>, PcError>(child),
            actor_answer,
            critic_answer,
        ));
        Ok(child)
    }
}

/// The networks that a save file brings back, or the reasons why they do not come back.
pub struct LoadAnswers<L: LinAlg> {
    /// Actor.
    pub actor: Result<PcActor<L>, PcError>,
    /// Critic.
    pub critic: Result<MlpCritic<L>, PcError>,
    /// Polyak target.
    pub polyak: Result<PcActor<L>, PcError>,
    /// Champion.
    pub champion: Result<PcActor<L>, PcError>,
}

/// An anchor comes back out of a file: its weights were saved, and it has a pull.
pub open spec fn anchor_saved(pull: Scalar, weights: Option<PcActorWeights>) -> bool {
    weights is Some && Scalar::zero().below(pull)
}

/// The networks were asked for actor, critic and the anchors that the file holds, in this
/// order; the agent is restored from them, or the first refusal is handed on.
pub open spec fn loaded_along<L: LinAlg, N: Networks<L>>(
    nets: &N,
    file: SaveFile,
    rng: StdRng,
    backend: L,
    r: Result<(PcActorCritic<L>, AgentMetadata), PcError>,
    answers: LoadAnswers<L>,
) -> bool {
    let config = file.config;
    let polyak = anchor_saved(config.distillation_lambda_polyak, file.polyak_target_weights);
    let champion = anchor_saved(config.distillation_lambda_frozen, file.frozen_champion_weights);
    &&& call_ensures(
        N::load_actor,
        (nets, &backend, &config.actor, &file.actor_weights),
        answers.actor,
    )
    &&& answers.actor is Ok ==> call_ensures(
        N::load_critic,
        (nets, &backend, &config.critic, &file.critic_weights),
        answers.critic,
    )
    &&& answers.actor is Ok && answers.critic is Ok && polyak ==> call_ensures(
        N::load_actor,
        (nets, &backend, &config.actor, &file.polyak_target_weights->0),
        answers.polyak,
    )
    &&& answers.actor is Ok && answers.critic is Ok && (polyak ==> answers.polyak is Ok)
        && champion ==> call_ensures(
        N::load_actor,
        (nets, &backend, &config.actor, &file.frozen_champion_weights->0),
        answers.champion,
    )
    &&& if answers.actor is Err {
        r == Err::<(PcActorCritic<L>, AgentMetadata), PcError>(answers.actor->Err_0)
    } else if answers.critic is Err {
        r == Err::<(PcActorCritic<L>, AgentMetadata), PcError>(answers.critic->Err_0)
    } else if polyak && answers.polyak is Err {
        r == Err::<(PcActorCritic<L>, AgentMetadata), PcError>(answers.polyak->Err_0)
    } else if champion && answers.champion is Err {
        r == Err::<(PcActorCritic<L>, AgentMetadata), PcError>(answers.champion->Err_0)
    } else {
        &&& r matches Ok((agent, metadata))
        &&& restored_from(
            agent,
            (SavedParts {
                config,
                actor: answers.actor->Ok_0,
                critic: answers.critic->Ok_0,
                polyak_target: if polyak {
                    Some(answers.polyak->Ok_0)
                } else {
                    None
                },
                frozen_champion: if champion {
                    Some(answers.champion->Ok_0)
                } else {
                    None
                },
                cl_state: file.cl_state,
                replay_buffer: file.replay_buffer,
                replay_clamp_count: file.replay_clamp_count,
                steps_since_last_rollback_hard: file.steps_since_last_rollback_hard,
                rollback_hard_cooldown_steps: file.rollback_hard_cooldown_steps,
            }),
        )
        &&& agent.rng == rng
        &&& agent.backend == backend
        &&& metadata == file.metadata
    }
}

/// An agent was loaded, or refused, whatever the networks answered.
pub open spec fn loaded<L: LinAlg, N: Networks<L>>(
    nets: &N,
    file: SaveFile,
    rng: StdRng,
    backend: L,
    r: Result<(PcActorCritic<L>, AgentMetadata), PcError>,
) -> bool {
    exists|answers: LoadAnswers<L>|
        #[trigger] loaded_along(nets, file, rng, backend, r, answers)
}

impl<L: LinAlg> PcActorCritic<L> {
    fn load_anchor<N: Networks<L>>(
        nets: &N,
        backend: &L,
        config: &PcActorCriticConfig,
        pull: Scalar,
        weights: &Option<PcActorWeights>,
    ) -> (r: Option<Result<PcActor<L>, PcError>>)
        ensures
            r is Some <==> anchor_saved(pull, *weights),
            r matches Some(a) ==> call_ensures(
                N::load_actor,
                (nets, backend, &config.actor, &weights->0),
                a,
            ),
    {
        match weights {
            Some(w) => if Scalar::zero().lt(pull) {
                Some(nets.load_actor(backend, &config.actor, w))
            } else {
                None
            },
            None => None,
        }
    }

    /// The agent that a save file describes, and what the file says of itself.
    pub fn load<N: Networks<L>>(nets: &N, file: SaveFile, rng: StdRng, backend: L) -> (r: Result<
        (Self, AgentMetadata),
        PcError,
    >)
        requires
            file.cl_state matches Some(c) ==> c.well_formed(),
        ensures
            loaded(nets, file, rng, backend, r),
    {
        let ghost mut answers: LoadAnswers<L> = arbitrary();
        let actor_answer = nets.load_actor(&backend, &file.config.actor, &file.actor_weights);
        proof {
            answers = LoadAnswers { actor: actor_answer, ..answers };
        }
        let actor = match actor_answer {
            Ok(a) => a,
            Err(e) => {
                assert(loaded_along(nets, file, rng, backend, Err(e), answers));
                return Err(e);
            },
        };
        let critic_answer = nets.load_critic(&backend, &file.config.critic, &file.critic_weights);
        proof {
            answers = LoadAnswers { critic: critic_answer, ..answers };
        }
        let critic = match critic_answer {
            Ok(c) => c,
            Err(e) => {
                assert(loaded_along(nets, file, rng, backend, Err(e), answers));
                return Err(e);
            },
        };
        let polyak_answer = Self::load_anchor(
            nets,
            &backend,
            &file.config,
            file.config.distillation_lambda_polyak,
            &file.polyak_target_weights,
        );
        proof {
            if polyak_answer is Some {
                answers = LoadAnswers { polyak: polyak_answer->0, ..answers };
            }
        }
        let polyak_target = match polyak_answer {
            Some(Ok(a)) => Some(a),
            Some(Err(e)) => {
                assert(loaded_along(nets, file, rng, backend, Err(e), answers));
                return Err(e);
            },
            None => None,
        };
        let champion_answer = Self::load_anchor(
            nets,
            &backend,
            &file.config,
            file.config.distillation_lambda_frozen,
            &file.frozen_champion_weights,
        );
        proof {
            if champion_answer is Some {
                answers = LoadAnswers { champion: champion_answer->0, ..answers };
            }
        }
        let frozen_champion = match champion_answer {
            Some(Ok(a)) => Some(a),
            Some(Err(e)) => {
                assert(loaded_along(nets, file, rng, backend, Err(e), answers));
                return Err(e);
            },
            None => None,
        };
        let ghost whole = file;
        let parts = SavedParts {
            config: file.config,
            actor,
            critic,
            polyak_target,
            frozen_champion,
            cl_state: file.cl_state,
            replay_buffer: file.replay_buffer,
            replay_clamp_count: file.replay_clamp_count,
            steps_since_last_rollback_hard: file.steps_since_last_rollback_hard,
            rollback_hard_cooldown_steps: file.rollback_hard_cooldown_steps,
        };
        let agent = Self::restored(parts, rng, backend);
        let loaded_agent = (agent, file.metadata);
        assert(loaded_along(nets, whole, rng, backend, Ok(loaded_agent), answers));
        Ok(loaded_agent)
    }
}

/// Networks that hold the weights that were saved.
pub open spec fn faithful<L: LinAlg>(file: SaveFile, answers: LoadAnswers<L>) -> bool {
    let config = file.config;
    &&& answers.actor matches Ok(a) && a.weights() == file.actor_weights.weights()
    &&& answers.critic matches Ok(c) && layer_views(c.layers@) == saved_layer_views(
        file.critic_weights.layers@,
    )
    &&& anchor_saved(config.distillation_lambda_polyak, file.polyak_target_weights) ==> (
    answers.polyak matches Ok(a) && a.weights() == file.polyak_target_weights->0.weights())
    &&& anchor_saved(config.distillation_lambda_frozen, file.frozen_champion_weights) ==> (
    answers.champion matches Ok(a) && a.weights() == file.frozen_champion_weights->0.weights())
}

/// Loading gives back the agent that was saved, where the networks give back the weights that
/// were saved: it succeeds, and configuration, weights, anchors, continual-learning state,
/// replay memory and counts are those of the agent, between two episodes. The agent has an
/// anchor exactly where it has a pull, and neither replay memory nor smoothed errors are
/// missing where the configuration asks for them.
pub proof fn loading_gives_back_what_was_saved<L: LinAlg, N: Networks<L>>(
    nets: &N,
    agent: PcActorCritic<L>,
    file: SaveFile,
    rng: StdRng,
    backend: L,
    r: Result<(PcActorCritic<L>, AgentMetadata), PcError>,
    answers: LoadAnswers<L>,
)
    requires
        snapshot_of(file, agent),
        loaded_along(nets, file, rng, backend, r, answers),
        faithful(file, answers),
        agent.polyak_target is Some <==> Scalar::zero().below(
            agent.config.distillation_lambda_polyak,
        ),
        agent.frozen_champion is Some <==> Scalar::zero().below(
            agent.config.distillation_lambda_frozen,
        ),
        agent.replay_buffer is None ==> agent.config.replay_training_capacity == 0,
        agent.layer_error_ema@.len() == 0 ==> fresh_error_ema(agent.config).len() == 0,
    ensures
        r matches Ok((back, metadata)) && {
            &&& back.between_episodes()
            &&& back.config.alike(agent.config)
            &&& back.actor.weights() == agent.actor.weights()
            &&& layer_views(back.critic.layers@) == layer_views(agent.critic.layers@)
            &&& anchor_weights(back.polyak_target) == anchor_weights(agent.polyak_target)
            &&& anchor_weights(back.frozen_champion) == anchor_weights(agent.frozen_champion)
            &&& same_learning_state(back, agent)
            &&& replay_opt(back.replay_buffer) == replay_opt(agent.replay_buffer)
            &&& back.replay_clamp_count == agent.replay_clamp_count
            &&& back.steps_since_last_rollback_hard == agent.steps_since_last_rollback_hard
            &&& back.rollback_hard_cooldown_steps == agent.rollback_hard_cooldown_steps
            &&& metadata == file.metadata
        },
{
    let back = r->Ok_0.0;
    let polyak = anchor_saved(file.config.distillation_lambda_polyak, file.polyak_target_weights);
    let champion = anchor_saved(
        file.config.distillation_lambda_frozen,
        file.frozen_champion_weights,
    );
    let parts = SavedParts {
        config: file.config,
        actor: answers.actor->Ok_0,
        critic: answers.critic->Ok_0,
        polyak_target: if polyak {
            Some(answers.polyak->Ok_0)
        } else {
            None
        },
        frozen_champion: if champion {
            Some(answers.champion->Ok_0)
        } else {
            None
        },
        cl_state: file.cl_state,
        replay_buffer: file.replay_buffer,
        replay_clamp_count: file.replay_clamp_count,
        steps_since_last_rollback_hard: file.steps_since_last_rollback_hard,
        rollback_hard_cooldown_steps: file.rollback_hard_cooldown_steps,
    };
    assert(saved_anchor(file.polyak_target_weights) == anchor_weights(agent.polyak_target));
    assert(saved_anchor(file.frozen_champion_weights) == anchor_weights(agent.frozen_champion));
    saved_agent_comes_back(agent, file, parts, back);
}

/// Networks whose layers have the activation functions that were saved.
pub open spec fn same_functions<L: LinAlg>(file: SaveFile, answers: LoadAnswers<L>) -> bool {
    let config = file.config;
    &&& answers.actor matches Ok(a) && activations(a.layers@) == saved_activations(
        file.actor_weights.layers@,
    )
    &&& answers.critic matches Ok(c) && activations(c.layers@) == saved_activations(
        file.critic_weights.layers@,
    )
    &&& anchor_saved(config.distillation_lambda_polyak, file.polyak_target_weights) ==> (
    answers.polyak matches Ok(a) && activations(a.layers@) == saved_activations(
        file.polyak_target_weights->0.layers@,
    ))
    &&& anchor_saved(config.distillation_lambda_frozen, file.frozen_champion_weights) ==> (
    answers.champion matches Ok(a) && activations(a.layers@) == saved_activations(
        file.frozen_champion_weights->0.layers@,
    ))
}

/// Loading gives back the activation functions that were saved, of both networks and of the
/// anchors, where the networks give them back. The agent has an anchor exactly where it has a
/// pull.
pub proof fn loading_gives_back_the_activations<L: LinAlg, N: Networks<L>>(
    nets: &N,
    agent: PcActorCritic<L>,
    file: SaveFile,
    rng: StdRng,
    backend: L,
    r: Result<(PcActorCritic<L>, AgentMetadata), PcError>,
    answers: LoadAnswers<L>,
)
    requires
        snapshot_of(file, agent),
        loaded_along(nets, file, rng, backend, r, answers),
        same_functions(file, answers),
        agent.polyak_target is Some <==> Scalar::zero().below(
            agent.config.distillation_lambda_polyak,
        ),
        agent.frozen_champion is Some <==> Scalar::zero().below(
            agent.config.distillation_lambda_frozen,
        ),
    ensures
        r matches Ok((back, metadata)) && {
            &&& activations(back.actor.layers@) == activations(agent.actor.layers@)
            &&& activations(back.critic.layers@) == activations(agent.critic.layers@)
            &&& anchor_functions(back.polyak_target) == anchor_functions(agent.polyak_target)
            &&& anchor_functions(back.frozen_champion) == anchor_functions(agent.frozen_champion)
        },
{
}

} // verus!
