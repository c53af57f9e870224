//! What an agent asks of its networks.

use rand::rngs::StdRng;
use vstd::prelude::*;

use crate::error::PcError;
use crate::linalg::LinAlg;
use crate::networks::{InferResult, MlpCritic, MlpCriticConfig, PcActor, PcActorConfig};
use crate::scalar::Scalar;
use crate::serializer::{MlpCriticWeights, PcActorWeights};

verus! {

/// How an action is chosen.
#[derive(Clone, Copy, Debug, PartialEq, Eq, Structural)]
pub enum SelectionMode {
    /// Drawn at random from the policy.
    Training,
    /// The likeliest action.
    Play,
}

/// Predictive-coding actors and value critics at work: inference, action selection, gradient
/// descent and recombination.
///
/// Nothing is taken for granted of what comes back. The contracts of the agent say what it
/// asks, with which arguments, and what it makes of every possible answer. Networks and
/// generators are handed over to be read; changed ones are handed back.
pub trait Networks<L: LinAlg> {
    /// A freshly initialised actor, and the generator as it is left.
    fn build_actor(&self, backend: &L, config: &PcActorConfig, rng: &StdRng) -> Result<
        (PcActor<L>, StdRng),
        PcError,
    >;

    /// A freshly initialised critic, and the generator as it is left.
    fn build_critic(&self, backend: &L, config: &MlpCriticConfig, rng: &StdRng) -> Result<
        (MlpCritic<L>, StdRng),
        PcError,
    >;

    /// An actor with saved weights.
    fn load_actor(&self, backend: &L, config: &PcActorConfig, weights: &PcActorWeights) -> Result<
        PcActor<L>,
        PcError,
    >;

    /// A critic with saved weights.
    fn load_critic(
        &self,
        backend: &L,
        config: &MlpCriticConfig,
        weights: &MlpCriticWeights,
    ) -> Result<MlpCritic<L>, PcError>;

    /// Predictive-coding inference.
    fn infer(&self, backend: &L, actor: &PcActor<L>, input: &[Scalar]) -> InferResult<L>;

    /// One of the open actions, given the actor's output, and the generator as it is left.
    fn select_action(
        &self,
        backend: &L,
        actor: &PcActor<L>,
        output: &L::Vector,
        open: &[usize],
        mode: SelectionMode,
        rng: &StdRng,
    ) -> (usize, StdRng);

    /// The actor after one step of gradient descent.
    fn move_actor(
        &self,
        backend: &L,
        actor: &PcActor<L>,
        delta: &[Scalar],
        infer: &InferResult<L>,
        input: &[Scalar],
        scale: Scalar,
        decay: &[Scalar],
    ) -> PcActor<L>;

    /// What the critic says of an input.
    fn value(&self, backend: &L, critic: &MlpCritic<L>, input: &[Scalar]) -> Scalar;

    /// The critic after one step of gradient descent, and its loss.
    fn fit_critic(
        &self,
        backend: &L,
        critic: &MlpCritic<L>,
        input: &[Scalar],
        target: Scalar,
    ) -> (MlpCritic<L>, Scalar);

    /// The same with a learning scale and a decay per hidden layer.
    fn move_critic(
        &self,
        backend: &L,
        critic: &MlpCritic<L>,
        input: &[Scalar],
        target: Scalar,
        scale: Scalar,
        decay: &[Scalar],
    ) -> (MlpCritic<L>, Scalar);

    /// An actor between two others, aligned by what their neurons responded to, and the
    /// generator as it is left.
    fn cross_actors(
        &self,
        backend: &L,
        a: &PcActor<L>,
        b: &PcActor<L>,
        seen_a: &Vec<L::Matrix>,
        seen_b: &Vec<L::Matrix>,
        alpha: Scalar,
        config: &PcActorConfig,
        rng: &StdRng,
    ) -> Result<(PcActor<L>, StdRng), PcError>;

    /// A critic between two others.
    fn cross_critics(
        &self,
        backend: &L,
        a: &MlpCritic<L>,
        b: &MlpCritic<L>,
        seen_a: &Vec<L::Matrix>,
        seen_b: &Vec<L::Matrix>,
        alpha: Scalar,
        config: &MlpCriticConfig,
        rng: &StdRng,
    ) -> Result<(MlpCritic<L>, StdRng), PcError>;
}

/// The networks may infer `r` at `input`.
pub open spec fn inferred<L: LinAlg, N: Networks<L>>(
    nets: &N,
    backend: &L,
    actor: &PcActor<L>,
    input: Seq<Scalar>,
    r: InferResult<L>,
) -> bool {
    exists|s: &[Scalar]| s@ == input && call_ensures(N::infer, (nets, backend, actor, s), r)
}

/// The networks may choose `r`.
pub open spec fn selected<L: LinAlg, N: Networks<L>>(
    nets: &N,
    backend: &L,
    actor: &PcActor<L>,
    output: &L::Vector,
    open: Seq<usize>,
    mode: SelectionMode,
    rng: &StdRng,
    r: (usize, StdRng),
) -> bool {
    exists|o: &[usize]|
        o@ == open && call_ensures(
            N::select_action,
            (nets, backend, actor, output, o, mode, rng),
            r,
        )
}

/// Networks that choose among the open actions, wherever there are any.
pub open spec fn chooses_open_actions<L: LinAlg, N: Networks<L>>(nets: &N) -> bool {
    forall|
        backend: &L,
        actor: &PcActor<L>,
        output: &L::Vector,
        open: Seq<usize>,
        mode: SelectionMode,
        rng: &StdRng,
        r: (usize, StdRng),
    |
        open.len() > 0 && #[trigger] selected(nets, backend, actor, output, open, mode, rng, r)
            ==> open.contains(r.0)
}

/// The networks may say `r` of the critic's `input`.
pub open spec fn valued<L: LinAlg, N: Networks<L>>(
    nets: &N,
    backend: &L,
    critic: &MlpCritic<L>,
    input: Seq<Scalar>,
    r: Scalar,
) -> bool {
    exists|s: &[Scalar]| s@ == input && call_ensures(N::value, (nets, backend, critic, s), r)
}

/// The networks may move the critic to `r`, at full scale.
pub open spec fn critic_fitted<L: LinAlg, N: Networks<L>>(
    nets: &N,
    backend: &L,
    critic: &MlpCritic<L>,
    input: Seq<Scalar>,
    target: Scalar,
    r: (MlpCritic<L>, Scalar),
) -> bool {
    exists|s: &[Scalar]|
        s@ == input && call_ensures(N::fit_critic, (nets, backend, critic, s, target), r)
}

/// The networks may move the critic to `r`.
pub open spec fn critic_moved<L: LinAlg, N: Networks<L>>(
    nets: &N,
    backend: &L,
    critic: &MlpCritic<L>,
    input: Seq<Scalar>,
    target: Scalar,
    scale: Scalar,
    decay: Seq<Scalar>,
    r: (MlpCritic<L>, Scalar),
) -> bool {
    exists|s: &[Scalar], d: &[Scalar]|
        s@ == input && d@ == decay && call_ensures(
            N::move_critic,
            (nets, backend, critic, s, target, scale, d),
            r,
        )
}

/// The networks may move the actor to `r`.
pub open spec fn actor_moved<L: LinAlg, N: Networks<L>>(
    nets: &N,
    backend: &L,
    actor: &PcActor<L>,
    delta: Seq<Scalar>,
    infer: &InferResult<L>,
    input: Seq<Scalar>,
    scale: Scalar,
    decay: Seq<Scalar>,
    r: PcActor<L>,
) -> bool {
    exists|e: &[Scalar], s: &[Scalar], d: &[Scalar]|
        e@ == delta && s@ == input && d@ == decay && call_ensures(
            N::move_actor,
            (nets, backend, actor, e, infer, s, scale, d),
            r,
        )
}

} // verus!
