//! Crossing two agents: the inputs of the networks' own crossover.

use rand::rngs::StdRng;
use vstd::prelude::*;

use crate::error::PcError;
use crate::linalg::{Grid, LinAlg};
use crate::pc_actor_critic::agent::PcActorCritic;
use crate::pc_actor_critic::config::PcActorCriticConfig;
use crate::pc_actor_critic::trajectory::{
    cache_matrices, cache_to_matrices, matrix_ready, sample_count, ActivationCache,
};
use crate::pc_actor_critic::validation::{config_complaint, validate_config};
use crate::random::{seed_rng, seeded};

verus! {

/// What the crossover of actors and critics works on.
pub struct CrossoverInputs<L: LinAlg> {
    /// Hidden activations of the first parent's actor, a matrix per layer.
    pub actor_a: Vec<L::Matrix>,
    /// Hidden activations of the second parent's actor.
    pub actor_b: Vec<L::Matrix>,
    /// Hidden activations of the first parent's critic.
    pub critic_a: Vec<L::Matrix>,
    /// Hidden activations of the second parent's critic.
    pub critic_b: Vec<L::Matrix>,
    /// Generator of the child.
    pub rng: StdRng,
}

/// What each matrix holds.
pub open spec fn matrix_views<L: LinAlg>(m: Seq<L::Matrix>) -> Seq<Grid> {
    m.map_values(|x: L::Matrix| L::grid(x))
}

/// The error for caches of different sizes.
pub open spec fn size_mismatch(e: PcError, a: nat, b: nat, context: Seq<char>) -> bool {
    e matches PcError::DimensionMismatch { expected, got, context: c } && expected == a && got == b
        && c@ == context
}

/// The caches of one network differ in size, or the child's configuration is not acceptable.
pub open spec fn crossing_refused<L: LinAlg>(
    actor_a: ActivationCache<L>,
    actor_b: ActivationCache<L>,
    critic_a: ActivationCache<L>,
    critic_b: ActivationCache<L>,
    config: PcActorCriticConfig,
) -> bool {
    ||| sample_count(actor_a.samples()) != sample_count(actor_b.samples())
    ||| sample_count(critic_a.samples()) != sample_count(critic_b.samples())
    ||| config_complaint::<L>(config) is Some
}

/// The error for a refused crossover: the actors' caches first, then the critics', then the
/// configuration.
pub open spec fn crossing_complaint<L: LinAlg>(
    actor_a: ActivationCache<L>,
    actor_b: ActivationCache<L>,
    critic_a: ActivationCache<L>,
    critic_b: ActivationCache<L>,
    config: PcActorCriticConfig,
    e: PcError,
) -> bool {
    if sample_count(actor_a.samples()) != sample_count(actor_b.samples()) {
        size_mismatch(
            e,
            sample_count(actor_a.samples()),
            sample_count(actor_b.samples()),
            "actor activation cache batch sizes must match for crossover"@,
        )
    } else if sample_count(critic_a.samples()) != sample_count(critic_b.samples()) {
        size_mismatch(
            e,
            sample_count(critic_a.samples()),
            sample_count(critic_b.samples()),
            "critic activation cache batch sizes must match for crossover"@,
        )
    } else {
        e.says(config_complaint::<L>(config)->0)
    }
}

impl<L: LinAlg> CrossoverInputs<L> {
    /// The caches as matrices, and the generator that the seed gives.
    pub open spec fn prepared(
        self,
        actor_a: ActivationCache<L>,
        actor_b: ActivationCache<L>,
        critic_a: ActivationCache<L>,
        critic_b: ActivationCache<L>,
        seed: u64,
    ) -> bool {
        &&& matrix_views::<L>(self.actor_a@) == cache_matrices(actor_a.samples())
        &&& matrix_views::<L>(self.actor_b@) == cache_matrices(actor_b.samples())
        &&& matrix_views::<L>(self.critic_a@) == cache_matrices(critic_a.samples())
        &&& matrix_views::<L>(self.critic_b@) == cache_matrices(critic_b.samples())
        &&& self.rng == seeded(seed)
    }
}

impl<L: LinAlg> PcActorCritic<L> {
    /// Checks the caches against each other and the child's configuration, and prepares what
    /// the networks' crossover works on.
    pub fn crossover_inputs(
        backend: &L,
        actor_cache_a: &ActivationCache<L>,
        actor_cache_b: &ActivationCache<L>,
        critic_cache_a: &ActivationCache<L>,
        critic_cache_b: &ActivationCache<L>,
        child_config: &PcActorCriticConfig,
        seed: u64,
    ) -> (r: Result<CrossoverInputs<L>, PcError>)
        requires
            crossing_refused(
                *actor_cache_a,
                *actor_cache_b,
                *critic_cache_a,
                *critic_cache_b,
                *child_config,
            ) || {
                &&& matrix_ready(actor_cache_a.samples())
                &&& matrix_ready(actor_cache_b.samples())
                &&& matrix_ready(critic_cache_a.samples())
                &&& matrix_ready(critic_cache_b.samples())
            },
        ensures
            r is Err <==> crossing_refused(
                *actor_cache_a,
                *actor_cache_b,
                *critic_cache_a,
                *critic_cache_b,
                *child_config,
            ),
            r matches Ok(i) ==> i.prepared(
                *actor_cache_a,
                *actor_cache_b,
                *critic_cache_a,
                *critic_cache_b,
                seed,
            ),
            r matches Err(e) ==> crossing_complaint(
                *actor_cache_a,
                *actor_cache_b,
                *critic_cache_a,
                *critic_cache_b,
                *child_config,
                e,
            ),
    {
        if actor_cache_a.batch_size() != actor_cache_b.batch_size() {
            return Err(
                PcError::DimensionMismatch {
                    expected: actor_cache_a.batch_size(),
                    got: actor_cache_b.batch_size(),
                    context: "actor activation cache batch sizes must match for crossover",
                },
            );
        }
        if critic_cache_a.batch_size() != critic_cache_b.batch_size() {
            return Err(
                PcError::DimensionMismatch {
                    expected: critic_cache_a.batch_size(),
                    got: critic_cache_b.batch_size(),
                    context: "critic activation cache batch sizes must match for crossover",
                },
            );
        }
        match validate_config::<L>(child_config) {
            Ok(()) => {},
            Err(e) => {
                return Err(e);
            },
        }
        Ok(
            CrossoverInputs {
                actor_a: cache_to_matrices(backend, actor_cache_a),
                actor_b: cache_to_matrices(backend, actor_cache_b),
                critic_a: cache_to_matrices(backend, critic_cache_a),
                critic_b: cache_to_matrices(backend, critic_cache_b),
                rng: seed_rng(seed),
            },
        )
    }
}

} // verus!
