//! Recovery: going back to the Polyak target or the frozen champion, and naming a champion.

use vstd::prelude::*;

use crate::error::PcError;
use crate::linalg::{zero_seq, LinAlg};
use crate::networks::{
    activations, topology_reflexive, topology_symmetric, topology_transitive, PcActor,
};
use crate::numeric::zero_list;
use crate::pc_actor_critic::agent::PcActorCritic;
use crate::pc_actor_critic::fisher::{fisher_views, FisherView};
use crate::pc_actor_critic::fitting::same_topology;
use crate::scalar::Scalar;
use crate::text::{decimal, decimal_digits};

verus! {

/// Only the weights of the actor differ.
pub open spec fn same_besides_weights<L: LinAlg>(a: PcActor<L>, b: PcActor<L>) -> bool {
    &&& a.config == b.config
    &&& a.skip_alpha == b.skip_alpha
    &&& activations(a.layers@) == activations(b.layers@)
}

/// What is said of a hard rollback that comes too early.
pub open spec fn cooldown_text(elapsed: u64, window: u64) -> Seq<char> {
    "rollback_hard rejected: cooldown active ("@ + decimal_digits(elapsed as nat) + " of "@
        + decimal_digits(window as nat) + " steps)"@
}

/// What is said of an anchor whose weights cannot be exchanged with the actor's.
pub open spec fn misfit_anchor_text() -> Seq<char> {
    "the anchor does not fit the actor"@
}

fn misfit_anchor() -> (r: PcError)
    ensures
        r.says(misfit_anchor_text()),
{
    PcError::ConfigValidation(String::from_str("the anchor does not fit the actor"))
}

/// A soft rollback: the actor has the Polyak target's weights and a wiped learning state.
pub open spec fn rolled_back_soft<L: LinAlg>(
    before: PcActorCritic<L>,
    after: PcActorCritic<L>,
) -> bool {
    &&& before.polyak_target is Some
    &&& after.actor.weights() == before.polyak_target->0.weights()
    &&& same_besides_weights(after.actor, before.actor)
    &&& after.actor_state_wiped(before)
    &&& after.polyak_target == before.polyak_target
    &&& after.actor_fisher == before.actor_fisher
    &&& after.steps_since_last_rollback_hard == before.steps_since_last_rollback_hard
}

/// A hard rollback: actor and Polyak target have the champion's weights, the phase estimate
/// of the importance records starts from zero, the learning state is wiped and the cooldown
/// starts.
pub open spec fn rolled_back_hard<L: LinAlg>(
    before: PcActorCritic<L>,
    after: PcActorCritic<L>,
) -> bool {
    &&& before.frozen_champion is Some
    &&& after.actor.weights() == before.frozen_champion->0.weights()
    &&& same_besides_weights(after.actor, before.actor)
    &&& after.polyak_target is Some <==> before.polyak_target is Some
    &&& after.polyak_target matches Some(p) ==> p.weights()
        == before.frozen_champion->0.weights() && same_besides_weights(
        p,
        before.polyak_target->0,
    )
    &&& fisher_views(after.actor_fisher@) == (if before.config.ewc_lambda.at_most(Scalar::zero()) {
        fisher_views(before.actor_fisher@)
    } else {
        fisher_views(before.actor_fisher@).map_values(|f: FisherView| f.phase_cleared())
    })
    &&& after.steps_since_last_rollback_hard == 0
    &&& after.actor_state_wiped(before)
}

/// The champion has the actor's weights, and nothing else changed.
pub open spec fn champion_named<L: LinAlg>(
    before: PcActorCritic<L>,
    after: PcActorCritic<L>,
) -> bool {
    &&& before.frozen_champion is Some
    &&& after.frozen_champion is Some
    &&& after.frozen_champion->0.weights() == before.actor.weights()
    &&& same_besides_weights(after.frozen_champion->0, before.frozen_champion->0)
    &&& after == (PcActorCritic { frozen_champion: after.frozen_champion, ..before })
}

impl<L: LinAlg> PcActorCritic<L> {
    /// Every anchor has the actor's topology.
    pub open spec fn anchors_fit(self) -> bool {
        &&& self.polyak_target matches Some(p) ==> p.weights().same_topology(self.actor.weights())
        &&& self.frozen_champion matches Some(f) ==> f.weights().same_topology(
            self.actor.weights(),
        )
    }

    /// There is a Polyak target whose weights the actor can take over.
    pub open spec fn polyak_fits(self) -> bool {
        self.polyak_target matches Some(p) && p.weights().same_topology(self.actor.weights())
    }

    /// There is a champion whose weights can be exchanged with the actor's.
    pub open spec fn champion_fits(self) -> bool {
        self.frozen_champion matches Some(f) && f.weights().same_topology(self.actor.weights())
    }

    /// The cooldown of the hard rollback has not run out.
    pub open spec fn cooling_down(self) -> bool {
        &&& self.rollback_hard_cooldown_steps > 0
        &&& self.steps_since_last_rollback_hard < self.rollback_hard_cooldown_steps
    }

    /// The actor's learning state is wiped, with everything else but weights and records kept.
    pub open spec fn actor_state_wiped(self, other: Self) -> bool {
        &&& self.actor_trace@ == zero_seq(other.actor_trace@.len())
        &&& self.td_error_buffer@ == Seq::<Scalar>::empty()
        &&& self == (PcActorCritic {
            actor: self.actor,
            polyak_target: self.polyak_target,
            actor_fisher: self.actor_fisher,
            steps_since_last_rollback_hard: self.steps_since_last_rollback_hard,
            actor_trace: self.actor_trace,
            td_error_buffer: self.td_error_buffer,
            actor_plastic_step_counter: 0,
            actor_frozen_steps: 0,
            last_td_error: Scalar::zero(),
            ..other
        })
    }

    /// Sets every entry of the eligibility trace to zero.
    pub fn clear_trace(&mut self)
        ensures
            final(self).actor_trace@ == zero_seq(old(self).actor_trace@.len()),
            *final(self) == (PcActorCritic { actor_trace: final(self).actor_trace, ..*old(self) }),
    {
        let n: usize = self.actor_trace.len();
        self.actor_trace = zero_list(n);
    }

    /// Wipes the actor's learning state: trace, counts and TD errors.
    pub fn reset_actor_transient_state(&mut self)
        ensures
            final(self).actor_trace@ == zero_seq(old(self).actor_trace@.len()),
            final(self).td_error_buffer@ == Seq::<Scalar>::empty(),
            *final(self) == (PcActorCritic {
                actor_trace: final(self).actor_trace,
                td_error_buffer: final(self).td_error_buffer,
                actor_plastic_step_counter: 0,
                actor_frozen_steps: 0,
                last_td_error: Scalar::zero(),
                ..*old(self)
            }),
    {
        self.clear_trace();
        self.actor_plastic_step_counter = 0;
        self.actor_frozen_steps = 0;
        self.td_error_buffer.clear();
        self.last_td_error = Scalar::zero();
    }

    /// Takes the actor back to the Polyak target and wipes its learning state. Without a
    /// target, or with one of another topology, the request is refused and nothing changes.
    pub fn rollback_soft(&mut self) -> (r: Result<(), PcError>)
        ensures
            r is Ok <==> old(self).polyak_fits(),
            r is Ok ==> rolled_back_soft(*old(self), *final(self)),
            r matches Err(e) ==> *final(self) == *old(self) && e.says(
                if old(self).polyak_target is None {
                    "rollback_soft requires distillation_lambda_polyak > 0"@
                } else {
                    misfit_anchor_text()
                },
            ),
    {
        match &self.polyak_target {
            None => {
                return Err(
                    PcError::ConfigValidation(
                        String::from_str("rollback_soft requires distillation_lambda_polyak > 0"),
                    ),
                );
            },
            Some(polyak) => {
                if !same_topology(&self.backend, polyak, &self.actor) {
                    return Err(misfit_anchor());
                }
                proof {
                    topology_symmetric(polyak.weights(), self.actor.weights());
                }
                self.actor.copy_weights_from(polyak);
            },
        }
        self.reset_actor_transient_state();
        Ok(())
    }

    /// Takes the actor and the Polyak target back to the frozen champion, starts the phase
    /// estimate of the importance records from zero and wipes the actor's learning state.
    /// The critic is not touched. During the cooldown, without a champion, or with anchors of
    /// another topology, the request is refused and nothing changes.
    pub fn rollback_hard(&mut self) -> (r: Result<(), PcError>)
        ensures
            r is Ok <==> !old(self).cooling_down() && old(self).frozen_champion is Some && old(
                self,
            ).anchors_fit(),
            r is Ok ==> rolled_back_hard(*old(self), *final(self)),
            r matches Err(e) ==> *final(self) == *old(self) && e.says(
                if old(self).cooling_down() {
                    cooldown_text(
                        old(self).steps_since_last_rollback_hard,
                        old(self).rollback_hard_cooldown_steps,
                    )
                } else if old(self).frozen_champion is None {
                    "rollback_hard requires distillation_lambda_frozen > 0"@
                } else {
                    misfit_anchor_text()
                },
            ),
    {
        if self.rollback_hard_cooldown_steps > 0 && self.steps_since_last_rollback_hard
            < self.rollback_hard_cooldown_steps {
            let mut s = String::from_str("rollback_hard rejected: cooldown active (");
            let elapsed = decimal(self.steps_since_last_rollback_hard);
            s.append(elapsed.as_str());
            s.append(" of ");
            let window = decimal(self.rollback_hard_cooldown_steps);
            s.append(window.as_str());
            s.append(" steps)");
            return Err(PcError::ConfigValidation(s));
        }
        match &self.frozen_champion {
            None => {
                return Err(
                    PcError::ConfigValidation(
                        String::from_str("rollback_hard requires distillation_lambda_frozen > 0"),
                    ),
                );
            },
            Some(frozen) => {
                let polyak_fits = match &self.polyak_target {
                    Some(polyak) => same_topology(&self.backend, polyak, &self.actor),
                    None => true,
                };
                if !polyak_fits || !same_topology(&self.backend, frozen, &self.actor) {
                    return Err(misfit_anchor());
                }
                proof {
                    topology_symmetric(frozen.weights(), self.actor.weights());
                    if self.polyak_target is Some {
                        topology_transitive(
                            self.polyak_target->0.weights(),
                            self.actor.weights(),
                            frozen.weights(),
                        );
                    }
                }
                self.actor.copy_weights_from(frozen);
                match &mut self.polyak_target {
                    Some(polyak) => {
                        polyak.copy_weights_from(frozen);
                    },
                    None => {},
                }
            },
        }
        self.clear_actor_fisher_ema();
        self.reset_actor_transient_state();
        self.steps_since_last_rollback_hard = 0;
        Ok(())
    }

    /// Makes the current actor the champion. Without a champion slot, or with a champion of
    /// another topology, the request is refused and nothing changes.
    pub fn champion_update(&mut self) -> (r: Result<(), PcError>)
        ensures
            r is Ok <==> old(self).champion_fits(),
            r is Ok ==> champion_named(*old(self), *final(self)),
            r matches Err(e) ==> *final(self) == *old(self) && e.says(
                if old(self).frozen_champion is None {
                    "champion_update requires distillation_lambda_frozen > 0"@
                } else {
                    misfit_anchor_text()
                },
            ),
    {
        match &mut self.frozen_champion {
            None => {
                return Err(
                    PcError::ConfigValidation(
                        String::from_str("champion_update requires distillation_lambda_frozen > 0"),
                    ),
                );
            },
            Some(frozen) => {
                if !same_topology(&self.backend, frozen, &self.actor) {
                    return Err(misfit_anchor());
                }
                frozen.copy_weights_from(&self.actor);
            },
        }
        Ok(())
    }

    /// Sets how many learning steps have to pass between two hard rollbacks; none for zero.
    pub fn set_rollback_hard_cooldown(&mut self, steps: u64)
        ensures
            *final(self) == (PcActorCritic { rollback_hard_cooldown_steps: steps, ..*old(self) }),
    {
        self.rollback_hard_cooldown_steps = steps;
    }
}

/// A hard rollback brings back the weights that the champion was named with, whatever
/// happened in between, as long as no other champion was named.
pub proof fn rollback_returns_to_champion<L: LinAlg>(
    at_naming: PcActorCritic<L>,
    named: PcActorCritic<L>,
    later: PcActorCritic<L>,
    rolled_back: PcActorCritic<L>,
)
    requires
        champion_named(at_naming, named),
        later.frozen_champion == named.frozen_champion,
        rolled_back_hard(later, rolled_back),
    ensures
        rolled_back.actor.weights() == at_naming.actor.weights(),
        rolled_back.polyak_target matches Some(p) ==> p.weights() == at_naming.actor.weights(),
{
}

/// Right after a hard rollback another one is refused, unless the cooldown is switched off.
pub proof fn rollback_starts_cooldown<L: LinAlg>(before: PcActorCritic<L>, after: PcActorCritic<L>)
    requires
        rolled_back_hard(before, after),
    ensures
        after.cooling_down() <==> before.rollback_hard_cooldown_steps > 0,
{
}

/// A hard rollback touches neither the critic nor the champion nor the configuration, and
/// keeps totals and remembered weights of the importance records.
pub proof fn rollback_keeps_the_rest<L: LinAlg>(before: PcActorCritic<L>, after: PcActorCritic<L>)
    requires
        rolled_back_hard(before, after),
    ensures
        after.critic == before.critic,
        after.critic_fisher == before.critic_fisher,
        after.frozen_champion == before.frozen_champion,
        after.config == before.config,
        after.replay_buffer == before.replay_buffer,
        after.actor_fisher@.len() == before.actor_fisher@.len(),
        forall|i: int|
            #![trigger after.actor_fisher@[i]]
            0 <= i < before.actor_fisher@.len() ==> {
                &&& after.actor_fisher@[i]@.total_weights == before.actor_fisher@[i]@.total_weights
                &&& after.actor_fisher@[i]@.total_bias == before.actor_fisher@[i]@.total_bias
                &&& after.actor_fisher@[i]@.snapshot_weights
                    == before.actor_fisher@[i]@.snapshot_weights
                &&& after.actor_fisher@[i]@.snapshot_bias == before.actor_fisher@[i]@.snapshot_bias
            },
{
    assert(fisher_views(after.actor_fisher@).len() == after.actor_fisher@.len());
    assert(fisher_views(before.actor_fisher@).len() == before.actor_fisher@.len());
    assert forall|i: int|
        #![trigger after.actor_fisher@[i]]
        0 <= i < before.actor_fisher@.len() implies {
        &&& after.actor_fisher@[i]@.total_weights == before.actor_fisher@[i]@.total_weights
        &&& after.actor_fisher@[i]@.total_bias == before.actor_fisher@[i]@.total_bias
        &&& after.actor_fisher@[i]@.snapshot_weights == before.actor_fisher@[i]@.snapshot_weights
        &&& after.actor_fisher@[i]@.snapshot_bias == before.actor_fisher@[i]@.snapshot_bias
    } by {
        assert(fisher_views(after.actor_fisher@)[i] == after.actor_fisher@[i]@);
        assert(fisher_views(before.actor_fisher@)[i] == before.actor_fisher@[i]@);
    }
}

/// The anchors of an agent that was just built or reconfigured fit its actor.
pub proof fn fresh_anchors_fit<L: LinAlg>(agent: PcActorCritic<L>)
    requires
        agent.at_baseline(),
    ensures
        agent.anchors_fit(),
{
    topology_reflexive(agent.actor.weights());
}

/// Recovery keeps every anchor of the actor's topology.
pub proof fn recovery_keeps_anchors<L: LinAlg>(before: PcActorCritic<L>, after: PcActorCritic<L>)
    requires
        before.anchors_fit(),
        rolled_back_soft(before, after) || rolled_back_hard(before, after) || champion_named(
            before,
            after,
        ),
    ensures
        after.anchors_fit(),
{
    let a = before.actor.weights();
    topology_reflexive(a);
    if before.polyak_target is Some {
        let p = before.polyak_target->0.weights();
        topology_reflexive(p);
        topology_symmetric(p, a);
        if before.frozen_champion is Some {
            let f = before.frozen_champion->0.weights();
            topology_symmetric(f, a);
            topology_transitive(f, a, p);
            topology_transitive(p, a, f);
        }
    }
    if before.frozen_champion is Some {
        let f = before.frozen_champion->0.weights();
        topology_reflexive(f);
        topology_symmetric(f, a);
    }
}

} // verus!
