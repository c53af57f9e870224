//! Freezing and waking of the two networks: each by its own signal, each by the other, and
//! what that does to the importance records.

use vstd::prelude::*;

use crate::linalg::LinAlg;
use crate::networks::{layer_views, LayerView};
use crate::pc_actor_critic::agent::{reliable_phase, PcActorCritic};
use crate::pc_actor_critic::config::PcActorCriticConfig;
use crate::pc_actor_critic::ewma::PlasticityState;
use crate::pc_actor_critic::fisher::{
    a_cycle_adds_and_fades, a_cycle_adds_and_fades_biases, clear_all, fisher_views, fishers_fit,
    sleep_all, slept_fishers, wake_all, FisherView,
};
use crate::pc_actor_critic::hysteresis::HysteresisState;
use crate::reading::{reads, sized, Reading};
use crate::scalar::Scalar;

verus! {

/// Plasticity of one network.
pub struct NetPlasticity {
    /// Its machine, where it has one.
    pub machine: Option<HysteresisState>,
    /// Steps that it has been plastic.
    pub plastic: u64,
    /// Steps that it has been frozen.
    pub frozen: u64,
}

impl NetPlasticity {
    /// The network is frozen.
    pub open spec fn is_frozen(self) -> bool {
        self.machine matches Some(h) && h.state == PlasticityState::Frozen
    }

    /// The network has a machine and is plastic.
    pub open spec fn is_plastic(self) -> bool {
        self.machine matches Some(h) && h.state == PlasticityState::Plastic
    }

    /// There is room to count one more step and one more sample.
    pub open spec fn can_count(self, signal: Scalar) -> bool {
        self.machine matches Some(h) ==> {
            &&& self.plastic < u64::MAX
            &&& self.frozen < u64::MAX
            &&& signal.finite() ==> h.can_count()
        }
    }

    /// There is room to count `n` more steps and samples.
    pub open spec fn room(self, n: nat) -> bool {
        self.machine matches Some(h) ==> {
            &&& self.plastic + n <= u64::MAX
            &&& self.frozen + n <= u64::MAX
            &&& h.fast.k + n <= u64::MAX
            &&& h.slow.k + n <= u64::MAX
        }
    }

    /// The next sample wakes the network.
    pub open spec fn wakes<L: LinAlg>(self, signal: Scalar) -> bool {
        self.is_frozen() && self.machine->0.after::<L>(signal).state == PlasticityState::Plastic
    }

    /// The next sample freezes the network.
    pub open spec fn sleeps<L: LinAlg>(self, signal: Scalar) -> bool {
        self.is_plastic() && self.machine->0.after::<L>(signal).state == PlasticityState::Frozen
    }

    /// The network after one sample of its signal. The step is counted for the state that
    /// it began in; waking sets both counts to zero.
    pub open spec fn sampled<L: LinAlg>(self, signal: Scalar) -> NetPlasticity {
        match self.machine {
            None => self,
            Some(h) => if self.wakes::<L>(signal) {
                NetPlasticity { machine: Some(h.after::<L>(signal)), plastic: 0, frozen: 0 }
            } else {
                NetPlasticity {
                    machine: Some(h.after::<L>(signal)),
                    plastic: if h.state == PlasticityState::Plastic {
                        (self.plastic + 1) as u64
                    } else {
                        self.plastic
                    },
                    frozen: if h.state == PlasticityState::Frozen {
                        (self.frozen + 1) as u64
                    } else {
                        self.frozen
                    },
                }
            },
        }
    }

    /// The network forced awake by the other.
    pub open spec fn forced(self) -> NetPlasticity {
        NetPlasticity { machine: Some(self.machine->0.forced_awake()), plastic: 0, frozen: 0 }
    }
}

/// What one step does to both networks.
pub struct PlasticityStep {
    /// The actor afterwards.
    pub actor: NetPlasticity,
    /// The critic afterwards.
    pub critic: NetPlasticity,
    /// The actor woke, by itself or by the critic.
    pub actor_woke: bool,
    /// The actor froze.
    pub actor_slept: bool,
    /// The critic woke, by itself or by the actor.
    pub critic_woke: bool,
    /// The critic froze.
    pub critic_slept: bool,
}

/// One network wakes the other: it has just woken, or has been plastic for `threshold`
/// steps, and the other has been frozen for `threshold` steps.
pub open spec fn couples(
    enabled: bool,
    threshold: u64,
    source: NetPlasticity,
    source_woke: bool,
    target: NetPlasticity,
) -> bool {
    &&& enabled
    &&& source_woke || (source.is_plastic() && source.plastic >= threshold)
    &&& target.is_frozen()
    &&& target.frozen >= threshold
}

/// One step of both networks under their signals and the couplings between them. A coupling
/// that fires sets the counts of both sides to zero.
pub open spec fn plasticity_step<L: LinAlg>(
    config: PcActorCriticConfig,
    actor: NetPlasticity,
    critic: NetPlasticity,
    actor_signal: Scalar,
    critic_signal: Scalar,
) -> PlasticityStep {
    let a = actor.sampled::<L>(actor_signal);
    let c = critic.sampled::<L>(critic_signal);
    let a_woke = actor.wakes::<L>(actor_signal);
    let c_woke = critic.wakes::<L>(critic_signal);
    let wake_critic = couples(
        config.actor_wakes_critic,
        config.actor_wakes_critic_threshold,
        a,
        a_woke,
        c,
    );
    let wake_actor = couples(
        config.critic_wakes_actor,
        config.critic_wakes_actor_threshold,
        c,
        c_woke,
        a,
    );
    PlasticityStep {
        actor: if wake_actor {
            a.forced()
        } else if wake_critic {
            NetPlasticity { plastic: 0, ..a }
        } else {
            a
        },
        critic: if wake_critic {
            c.forced()
        } else if wake_actor {
            NetPlasticity { plastic: 0, ..c }
        } else {
            c
        },
        actor_woke: a_woke || wake_actor,
        actor_slept: actor.sleeps::<L>(actor_signal),
        critic_woke: c_woke || wake_critic,
        critic_slept: critic.sleeps::<L>(critic_signal),
    }
}

/// Importance records of one network.
#[verifier::ext_equal]
pub struct NetImportance {
    /// One record per layer.
    pub records: Seq<FisherView>,
    /// Whether the last plastic phase was long enough to count.
    pub reliable: bool,
}

impl NetImportance {
    /// The records when the network freezes after `plastic` steps.
    pub open spec fn slept<L: LinAlg>(
        self,
        config: PcActorCriticConfig,
        plastic: u64,
        layers: Seq<LayerView>,
    ) -> NetImportance {
        if config.ewc_lambda.at_most(Scalar::zero()) {
            self
        } else {
            let reliable = plastic >= reliable_phase::<L>(config);
            NetImportance { records: slept_fishers::<L>(self.records, reliable, layers), reliable }
        }
    }

    /// The records when the network wakes.
    pub open spec fn woken<L: LinAlg>(self, config: PcActorCriticConfig) -> NetImportance {
        if config.ewc_lambda.at_most(Scalar::zero()) {
            self
        } else {
            NetImportance {
                records: self.records.map_values(
                    |f: FisherView| f.woken::<L>(self.reliable, config.fisher_decay),
                ),
                ..self
            }
        }
    }

    /// The records after a step in which the network may have frozen and may have woken.
    pub open spec fn stepped<L: LinAlg>(
        self,
        config: PcActorCriticConfig,
        slept: bool,
        woke: bool,
        plastic: u64,
        layers: Seq<LayerView>,
    ) -> NetImportance {
        let s = if slept {
            self.slept::<L>(config, plastic, layers)
        } else {
            self
        };
        if woke {
            s.woken::<L>(config)
        } else {
            s
        }
    }
}

/// One sample of each network's signal was taken: the networks' states and counts moved on,
/// the importance records with them, and nothing else changed.
pub open spec fn plasticity_stepped<L: LinAlg>(
    before: PcActorCritic<L>,
    after: PcActorCritic<L>,
    actor_signal: Scalar,
    critic_signal: Scalar,
) -> bool {
    let step = plasticity_step::<L>(
        before.config,
        before.actor_plasticity(),
        before.critic_plasticity(),
        actor_signal,
        critic_signal,
    );
    &&& after.actor_plasticity() == step.actor
    &&& after.critic_plasticity() == step.critic
    &&& after.actor_importance() == before.actor_importance().stepped::<L>(
        before.config,
        step.actor_slept,
        step.actor_woke,
        step.actor.plastic,
        layer_views(before.actor.layers@),
    )
    &&& after.critic_importance() == before.critic_importance().stepped::<L>(
        before.config,
        step.critic_slept,
        step.critic_woke,
        step.critic.plastic,
        layer_views(before.critic.layers@),
    )
    &&& after.same_besides_plasticity(before)
}

impl<L: LinAlg> PcActorCritic<L> {
    /// Plasticity of the actor.
    pub open spec fn actor_plasticity(self) -> NetPlasticity {
        NetPlasticity {
            machine: self.actor_hysteresis,
            plastic: self.actor_plastic_step_counter,
            frozen: self.actor_frozen_steps,
        }
    }

    /// Plasticity of the critic.
    pub open spec fn critic_plasticity(self) -> NetPlasticity {
        NetPlasticity {
            machine: self.critic_hysteresis,
            plastic: self.critic_plastic_step_counter,
            frozen: self.critic_frozen_steps,
        }
    }

    /// Importance records of the actor.
    pub open spec fn actor_importance(self) -> NetImportance {
        NetImportance {
            records: fisher_views(self.actor_fisher@),
            reliable: self.actor_last_phase_reliable,
        }
    }

    /// Importance records of the critic.
    pub open spec fn critic_importance(self) -> NetImportance {
        NetImportance {
            records: fisher_views(self.critic_fisher@),
            reliable: self.critic_last_phase_reliable,
        }
    }

    /// Importance records are absent, or one per layer and of the layer's shape.
    pub open spec fn importance_fits(self) -> bool {
        &&& self.actor_fisher@.len() == 0 || fishers_fit(
            fisher_views(self.actor_fisher@),
            layer_views(self.actor.layers@),
        )
        &&& self.critic_fisher@.len() == 0 || fishers_fit(
            fisher_views(self.critic_fisher@),
            layer_views(self.critic.layers@),
        )
    }

    /// Nothing but plasticity and importance records differs.
    pub open spec fn same_besides_plasticity(self, other: Self) -> bool {
        self == (PcActorCritic {
            actor_hysteresis: self.actor_hysteresis,
            critic_hysteresis: self.critic_hysteresis,
            actor_plastic_step_counter: self.actor_plastic_step_counter,
            critic_plastic_step_counter: self.critic_plastic_step_counter,
            critic_frozen_steps: self.critic_frozen_steps,
            actor_frozen_steps: self.actor_frozen_steps,
            actor_fisher: self.actor_fisher,
            critic_fisher: self.critic_fisher,
            actor_last_phase_reliable: self.actor_last_phase_reliable,
            critic_last_phase_reliable: self.critic_last_phase_reliable,
            ..other
        })
    }

    /// Whether the actor is frozen; without a machine it is not.
    pub fn is_actor_frozen(&self) -> (r: bool)
        ensures
            r == self.actor_plasticity().is_frozen(),
    {
        match &self.actor_hysteresis {
            Some(h) => h.state == PlasticityState::Frozen,
            None => false,
        }
    }

    /// Whether the critic is frozen; without a machine it is not.
    pub fn is_critic_frozen(&self) -> (r: bool)
        ensures
            r == self.critic_plasticity().is_frozen(),
    {
        match &self.critic_hysteresis {
            Some(h) => h.state == PlasticityState::Frozen,
            None => false,
        }
    }

    /// Takes a network into a new plastic phase: totals decay after a reliable phase, the
    /// phase estimate and the count of plastic steps start from zero. Nothing happens where
    /// consolidation is off.
    pub fn handle_fisher_wake(&mut self, is_actor: bool)
        ensures
            final(self).actor_importance() == (if is_actor {
                old(self).actor_importance().woken::<L>(old(self).config)
            } else {
                old(self).actor_importance()
            }),
            final(self).critic_importance() == (if is_actor {
                old(self).critic_importance()
            } else {
                old(self).critic_importance().woken::<L>(old(self).config)
            }),
            *final(self) == (PcActorCritic {
                actor_fisher: final(self).actor_fisher,
                critic_fisher: final(self).critic_fisher,
                actor_plastic_step_counter: if is_actor && !old(self).config.ewc_lambda.at_most(
                    Scalar::zero(),
                ) {
                    0
                } else {
                    old(self).actor_plastic_step_counter
                },
                critic_plastic_step_counter: if !is_actor && !old(self).config.ewc_lambda.at_most(
                    Scalar::zero(),
                ) {
                    0
                } else {
                    old(self).critic_plastic_step_counter
                },
                ..*old(self)
            }),
            is_actor ==> final(self).critic_fisher == old(self).critic_fisher,
            !is_actor ==> final(self).actor_fisher == old(self).actor_fisher,
    {
        if self.config.ewc_lambda.le(Scalar::zero()) {
            return;
        }
        if is_actor {
            wake_all(
                &self.backend,
                &mut self.actor_fisher,
                self.actor_last_phase_reliable,
                self.config.fisher_decay,
            );
            self.actor_plastic_step_counter = 0;
        } else {
            wake_all(
                &self.backend,
                &mut self.critic_fisher,
                self.critic_last_phase_reliable,
                self.config.fisher_decay,
            );
            self.critic_plastic_step_counter = 0;
        }
    }

    /// Ends the plastic phase of a network: a phase that was long enough is merged into the
    /// totals, and the weights are remembered either way. Nothing happens where
    /// consolidation is off.
    pub fn handle_fisher_sleep(&mut self, is_actor: bool)
        requires
            old(self).importance_fits(),
        ensures
            final(self).actor_importance() == (if is_actor {
                old(self).actor_importance().slept::<L>(
                    old(self).config,
                    old(self).actor_plastic_step_counter,
                    layer_views(old(self).actor.layers@),
                )
            } else {
                old(self).actor_importance()
            }),
            final(self).critic_importance() == (if is_actor {
                old(self).critic_importance()
            } else {
                old(self).critic_importance().slept::<L>(
                    old(self).config,
                    old(self).critic_plastic_step_counter,
                    layer_views(old(self).critic.layers@),
                )
            }),
            *final(self) == (PcActorCritic {
                actor_fisher: final(self).actor_fisher,
                critic_fisher: final(self).critic_fisher,
                actor_last_phase_reliable: final(self).actor_last_phase_reliable,
                critic_last_phase_reliable: final(self).critic_last_phase_reliable,
                ..*old(self)
            }),
            is_actor ==> final(self).critic_fisher == old(self).critic_fisher,
            !is_actor ==> final(self).actor_fisher == old(self).actor_fisher,
    {
        if self.config.ewc_lambda.le(Scalar::zero()) {
            return;
        }
        let phase: u64 = L::scalar_ceil(
            L::scalar_div(
                Scalar::one(),
                L::scalar_sub(Scalar::one(), self.config.fisher_ema_beta),
            ),
        );
        if is_actor {
            let reliable = self.actor_plastic_step_counter >= phase;
            sleep_all(&self.backend, &mut self.actor_fisher, reliable, &self.actor.layers);
            self.actor_last_phase_reliable = reliable;
        } else {
            let reliable = self.critic_plastic_step_counter >= phase;
            sleep_all(&self.backend, &mut self.critic_fisher, reliable, &self.critic.layers);
            self.critic_last_phase_reliable = reliable;
        }
    }

    fn sample_net(
        machine: &mut Option<HysteresisState>,
        plastic: &mut u64,
        frozen: &mut u64,
        signal: Scalar,
    ) -> (r: (bool, bool))
        requires
            (NetPlasticity { machine: *old(machine), plastic: *old(plastic), frozen: *old(frozen) }).can_count(
                signal,
            ),
        ensures
            ({
                let before = NetPlasticity {
                    machine: *old(machine),
                    plastic: *old(plastic),
                    frozen: *old(frozen),
                };
                let after = NetPlasticity {
                    machine: *final(machine),
                    plastic: *final(plastic),
                    frozen: *final(frozen),
                };
                &&& after == before.sampled::<L>(signal)
                &&& r.0 == before.wakes::<L>(signal)
                &&& r.1 == before.sleeps::<L>(signal)
            }),
    {
        let mut woke = false;
        let mut slept = false;
        match *machine {
            Some(h) => {
                let mut h = h;
                if h.state == PlasticityState::Frozen {
                    *frozen = *frozen + 1;
                }
                if h.state == PlasticityState::Plastic {
                    *plastic = *plastic + 1;
                }
                match h.update::<L>(signal) {
                    Some(s) => {
                        if s == PlasticityState::Plastic {
                            woke = true;
                            *plastic = 0;
                            *frozen = 0;
                        } else {
                            slept = true;
                        }
                    },
                    None => {},
                }
                *machine = Some(h);
            },
            None => {},
        }
        (woke, slept)
    }

    fn coupling_fires(
        enabled: bool,
        threshold: u64,
        source: &Option<HysteresisState>,
        source_plastic: u64,
        source_woke: bool,
        target: &Option<HysteresisState>,
        target_frozen: u64,
    ) -> (r: bool)
        ensures
            forall|sf: u64, tp: u64|
                r == #[trigger] couples(
                    enabled,
                    threshold,
                    NetPlasticity { machine: *source, plastic: source_plastic, frozen: sf },
                    source_woke,
                    NetPlasticity { machine: *target, plastic: tp, frozen: target_frozen },
                ),
    {
        let ready = source_woke || match source {
            Some(h) => h.state == PlasticityState::Plastic && source_plastic >= threshold,
            None => false,
        };
        let open = match target {
            Some(h) => h.state == PlasticityState::Frozen && target_frozen >= threshold,
            None => false,
        };
        enabled && ready && open
    }

    /// Takes one sample of each network's signal, lets the networks wake each other, and
    /// carries the importance records along.
    pub fn process_hysteresis(&mut self, actor_signal: Scalar, critic_signal: Scalar)
        requires
            old(self).importance_fits(),
            old(self).actor_plasticity().can_count(actor_signal),
            old(self).critic_plasticity().can_count(critic_signal),
        ensures
            plasticity_stepped(*old(self), *final(self), actor_signal, critic_signal),
    {
        let (actor_woke, actor_slept) = Self::sample_net(
            &mut self.actor_hysteresis,
            &mut self.actor_plastic_step_counter,
            &mut self.actor_frozen_steps,
            actor_signal,
        );
        let (critic_woke, critic_slept) = Self::sample_net(
            &mut self.critic_hysteresis,
            &mut self.critic_plastic_step_counter,
            &mut self.critic_frozen_steps,
            critic_signal,
        );
        let wake_critic = Self::coupling_fires(
            self.config.actor_wakes_critic,
            self.config.actor_wakes_critic_threshold,
            &self.actor_hysteresis,
            self.actor_plastic_step_counter,
            actor_woke,
            &self.critic_hysteresis,
            self.critic_frozen_steps,
        );
        let wake_actor = Self::coupling_fires(
            self.config.critic_wakes_actor,
            self.config.critic_wakes_actor_threshold,
            &self.critic_hysteresis,
            self.critic_plastic_step_counter,
            critic_woke,
            &self.actor_hysteresis,
            self.actor_frozen_steps,
        );
        let ghost sampled = *self;
        assert(wake_critic == couples(
            self.config.actor_wakes_critic,
            self.config.actor_wakes_critic_threshold,
            sampled.actor_plasticity(),
            actor_woke,
            sampled.critic_plasticity(),
        ));
        assert(wake_actor == couples(
            self.config.critic_wakes_actor,
            self.config.critic_wakes_actor_threshold,
            sampled.critic_plasticity(),
            critic_woke,
            sampled.actor_plasticity(),
        ));
        if wake_critic {
            match self.critic_hysteresis {
                Some(h) => {
                    let mut h = h;
                    h.force_awake();
                    self.critic_hysteresis = Some(h);
                },
                None => {},
            }
            self.critic_plastic_step_counter = 0;
            self.critic_frozen_steps = 0;
            self.actor_plastic_step_counter = 0;
        }
        if wake_actor {
            match self.actor_hysteresis {
                Some(h) => {
                    let mut h = h;
                    h.force_awake();
                    self.actor_hysteresis = Some(h);
                },
                None => {},
            }
            self.actor_plastic_step_counter = 0;
            self.actor_frozen_steps = 0;
            self.critic_plastic_step_counter = 0;
        }
        if actor_slept {
            self.handle_fisher_sleep(true);
        }
        if actor_woke || wake_actor {
            self.handle_fisher_wake(true);
        }
        if critic_slept {
            self.handle_fisher_sleep(false);
        }
        if critic_woke || wake_critic {
            self.handle_fisher_wake(false);
        }
    }

    /// Starts the phase estimate of every actor layer from zero; totals and remembered
    /// weights stay. Nothing happens where consolidation is off.
    pub fn clear_actor_fisher_ema(&mut self)
        ensures
            fisher_views(final(self).actor_fisher@) == (if old(self).config.ewc_lambda.at_most(
                Scalar::zero(),
            ) {
                fisher_views(old(self).actor_fisher@)
            } else {
                fisher_views(old(self).actor_fisher@).map_values(
                    |f: FisherView| f.phase_cleared(),
                )
            }),
            *final(self) == (PcActorCritic {
                actor_fisher: final(self).actor_fisher,
                ..*old(self)
            }),
    {
        if self.config.ewc_lambda.le(Scalar::zero()) {
            return;
        }
        clear_all(&self.backend, &mut self.actor_fisher);
    }
}

/// At most one of the two couplings fires in a step: the networks cannot wake each other
/// back and forth.
pub proof fn couplings_exclude_each_other<L: LinAlg>(
    config: PcActorCriticConfig,
    actor: NetPlasticity,
    critic: NetPlasticity,
    actor_signal: Scalar,
    critic_signal: Scalar,
)
    ensures
        !({
            let a = actor.sampled::<L>(actor_signal);
            let c = critic.sampled::<L>(critic_signal);
            &&& couples(
                config.actor_wakes_critic,
                config.actor_wakes_critic_threshold,
                a,
                actor.wakes::<L>(actor_signal),
                c,
            )
            &&& couples(
                config.critic_wakes_actor,
                config.critic_wakes_actor_threshold,
                c,
                critic.wakes::<L>(critic_signal),
                a,
            )
        }),
{
}

/// A coupling that fires leaves both sides with their counts at zero, the woken side plastic
/// and in warm-up.
pub proof fn coupling_resets_both_sides<L: LinAlg>(
    config: PcActorCriticConfig,
    actor: NetPlasticity,
    critic: NetPlasticity,
    actor_signal: Scalar,
    critic_signal: Scalar,
)
    requires
        couples(
            config.critic_wakes_actor,
            config.critic_wakes_actor_threshold,
            critic.sampled::<L>(critic_signal),
            critic.wakes::<L>(critic_signal),
            actor.sampled::<L>(actor_signal),
        ),
    ensures
        ({
            let s = plasticity_step::<L>(config, actor, critic, actor_signal, critic_signal);
            &&& s.actor.is_plastic()
            &&& s.actor.plastic == 0
            &&& s.actor.frozen == 0
            &&& s.critic.plastic == 0
            &&& s.actor.machine->0.fast.k == 0
            &&& s.actor.machine->0.slow.k == 0
            &&& s.actor_woke
        }),
{
}

/// The same the other way round.
pub proof fn coupling_resets_both_sides_reversed<L: LinAlg>(
    config: PcActorCriticConfig,
    actor: NetPlasticity,
    critic: NetPlasticity,
    actor_signal: Scalar,
    critic_signal: Scalar,
)
    requires
        couples(
            config.actor_wakes_critic,
            config.actor_wakes_critic_threshold,
            actor.sampled::<L>(actor_signal),
            actor.wakes::<L>(actor_signal),
            critic.sampled::<L>(critic_signal),
        ),
    ensures
        ({
            let s = plasticity_step::<L>(config, actor, critic, actor_signal, critic_signal);
            &&& s.critic.is_plastic()
            &&& s.critic.plastic == 0
            &&& s.critic.frozen == 0
            &&& s.actor.plastic == 0
            &&& s.critic.machine->0.fast.k == 0
            &&& s.critic.machine->0.slow.k == 0
            &&& s.critic_woke
        }),
{
}

/// With a coupling switched off, the network on its far side changes only by its own signal.
pub proof fn disabled_coupling_never_fires<L: LinAlg>(
    config: PcActorCriticConfig,
    actor: NetPlasticity,
    critic: NetPlasticity,
    actor_signal: Scalar,
    critic_signal: Scalar,
)
    ensures
        !config.critic_wakes_actor ==> plasticity_step::<L>(
            config,
            actor,
            critic,
            actor_signal,
            critic_signal,
        ).actor.machine == actor.sampled::<L>(actor_signal).machine,
        !config.actor_wakes_critic ==> plasticity_step::<L>(
            config,
            actor,
            critic,
            actor_signal,
            critic_signal,
        ).critic.machine == critic.sampled::<L>(critic_signal).machine,
{
}

/// Two plastic networks do not disturb each other: both counts go on.
pub proof fn plastic_networks_do_not_couple<L: LinAlg>(
    config: PcActorCriticConfig,
    actor: NetPlasticity,
    critic: NetPlasticity,
    actor_signal: Scalar,
    critic_signal: Scalar,
)
    requires
        actor.is_plastic(),
        critic.is_plastic(),
        !actor.sleeps::<L>(actor_signal),
        !critic.sleeps::<L>(critic_signal),
    ensures
        ({
            let s = plasticity_step::<L>(config, actor, critic, actor_signal, critic_signal);
            &&& s.actor == actor.sampled::<L>(actor_signal)
            &&& s.critic == critic.sampled::<L>(critic_signal)
            &&& !s.actor_woke
            &&& !s.critic_woke
        }),
{
}

/// Both networks after a run of steps.
pub open spec fn plasticity_run<L: LinAlg>(
    config: PcActorCriticConfig,
    actor: NetPlasticity,
    critic: NetPlasticity,
    signals: Seq<(Scalar, Scalar)>,
) -> (NetPlasticity, NetPlasticity)
    decreases signals.len(),
{
    if signals.len() == 0 {
        (actor, critic)
    } else {
        let (a, c) = plasticity_run::<L>(config, actor, critic, signals.drop_last());
        let s = plasticity_step::<L>(config, a, c, signals.last().0, signals.last().1);
        (s.actor, s.critic)
    }
}

/// A network that has just been woken cannot be woken again by the other before the
/// threshold has passed: in the `n`-th step after the counts were at zero, `n` below the
/// threshold, neither coupling fires.
pub proof fn coupling_waits_for_threshold<L: LinAlg>(
    config: PcActorCriticConfig,
    actor: NetPlasticity,
    critic: NetPlasticity,
    signals: Seq<(Scalar, Scalar)>,
    next: (Scalar, Scalar),
)
    requires
        actor.frozen == 0,
        critic.frozen == 0,
        signals.len() < u64::MAX,
    ensures
        ({
            let (a, c) = plasticity_run::<L>(config, actor, critic, signals);
            let a2 = a.sampled::<L>(next.0);
            let c2 = c.sampled::<L>(next.1);
            &&& a.frozen <= signals.len()
            &&& c.frozen <= signals.len()
            &&& signals.len() + 1 < config.critic_wakes_actor_threshold ==> !couples(
                config.critic_wakes_actor,
                config.critic_wakes_actor_threshold,
                c2,
                c.wakes::<L>(next.1),
                a2,
            )
            &&& signals.len() + 1 < config.actor_wakes_critic_threshold ==> !couples(
                config.actor_wakes_critic,
                config.actor_wakes_critic_threshold,
                a2,
                a.wakes::<L>(next.0),
                c2,
            )
        }),
    decreases signals.len(),
{
    if signals.len() > 0 {
        coupling_waits_for_threshold::<L>(
            config,
            actor,
            critic,
            signals.drop_last(),
            signals.last(),
        );
    }
}

/// Without consolidation no step touches the importance records.
pub proof fn no_consolidation_no_records<L: LinAlg>(
    config: PcActorCriticConfig,
    n: NetImportance,
    slept: bool,
    woke: bool,
    plastic: u64,
    layers: Seq<LayerView>,
)
    requires
        config.ewc_lambda.at_most(Scalar::zero()),
    ensures
        n.stepped::<L>(config, slept, woke, plastic, layers) == n,
{
}

/// Importance records keep the shape of their layers through every step.
pub proof fn steps_keep_records_in_shape<L: LinAlg>(
    config: PcActorCriticConfig,
    n: NetImportance,
    slept: bool,
    woke: bool,
    plastic: u64,
    layers: Seq<LayerView>,
)
    requires
        n.records.len() == 0 || fishers_fit(n.records, layers),
    ensures
        ({
            let r = n.stepped::<L>(config, slept, woke, plastic, layers).records;
            r.len() == 0 || fishers_fit(r, layers)
        }),
{
    let s = if slept {
        n.slept::<L>(config, plastic, layers)
    } else {
        n
    };
    if n.records.len() > 0 {
        assert(fishers_fit(s.records, layers)) by {
            assert forall|i: int| 0 <= i < s.records.len() implies (#[trigger] s.records[i]).fits(
                layers[i],
            ) by {
                assert(n.records[i].fits(layers[i]));
            }
        }
        let w = s.woken::<L>(config);
        assert forall|i: int| 0 <= i < w.records.len() implies (#[trigger] w.records[i]).fits(
            layers[i],
        ) by {
            assert(s.records[i].fits(layers[i]));
        }
    }
}

/// A network that freezes and wakes again after a plastic phase that was long enough has taken the
/// importance of the phase into its totals, and the totals have faded by the configured decay.
/// After a shorter phase the totals are what they were.
pub proof fn a_phase_counts_when_long_enough<L: LinAlg>(
    rd: Reading,
    config: PcActorCriticConfig,
    net: NetImportance,
    plastic: u64,
    layers: Seq<LayerView>,
    i: int,
    r: int,
    c: int,
    bound: real,
)
    requires
        reads::<L>(rd),
        !config.ewc_lambda.at_most(Scalar::zero()),
        0 <= i < net.records.len(),
        i < layers.len(),
        net.records[i].ema_weights.same_shape(net.records[i].total_weights),
        0 <= r < net.records[i].total_weights.rows,
        0 <= c < net.records[i].total_weights.cols,
        net.records[i].total_weights.at(r, c).finite(),
        net.records[i].ema_weights.at(r, c).finite(),
        sized(rd.of(net.records[i].total_weights.at(r, c)), bound),
        sized(rd.of(net.records[i].ema_weights.at(r, c)), bound),
        config.fisher_decay.finite(),
        0 as real <= rd.of(config.fisher_decay) <= 1 as real,
        bound >= 0 as real,
        bound + bound + rd.slack <= rd.top,
    ensures
        ({
            let end = net.slept::<L>(config, plastic, layers).woken::<L>(config);
            let total = rd.of(net.records[i].total_weights.at(r, c));
            let phase = rd.of(net.records[i].ema_weights.at(r, c));
            &&& end.reliable <==> plastic >= reliable_phase::<L>(config)
            &&& end.records.len() == net.records.len()
            &&& end.reliable ==> rd.shows(
                end.records[i].total_weights.at(r, c),
                rd.of(config.fisher_decay) * (total + phase),
                rd.slack + rd.slack,
            )
            &&& !end.reliable ==> end.records[i].total_weights == net.records[i].total_weights
            &&& end.records[i].ema_weights.at(r, c) == Scalar::zero()
            &&& end.records[i].snapshot_weights == Some(layers[i].weights)
        }),
{
    a_cycle_adds_and_fades::<L>(
        rd,
        net.records[i],
        plastic >= reliable_phase::<L>(config),
        config.fisher_decay,
        layers[i],
        r,
        c,
        bound,
    );
}

/// The same of the biases.
pub proof fn a_phase_counts_for_biases<L: LinAlg>(
    rd: Reading,
    config: PcActorCriticConfig,
    net: NetImportance,
    plastic: u64,
    layers: Seq<LayerView>,
    i: int,
    j: int,
    bound: real,
)
    requires
        reads::<L>(rd),
        !config.ewc_lambda.at_most(Scalar::zero()),
        0 <= i < net.records.len(),
        i < layers.len(),
        net.records[i].ema_bias.len() == net.records[i].total_bias.len(),
        0 <= j < net.records[i].total_bias.len(),
        net.records[i].total_bias[j].finite(),
        net.records[i].ema_bias[j].finite(),
        sized(rd.of(net.records[i].total_bias[j]), bound),
        sized(rd.of(net.records[i].ema_bias[j]), bound),
        config.fisher_decay.finite(),
        0 as real <= rd.of(config.fisher_decay) <= 1 as real,
        bound >= 0 as real,
        bound + bound + rd.slack <= rd.top,
    ensures
        ({
            let end = net.slept::<L>(config, plastic, layers).woken::<L>(config);
            let total = rd.of(net.records[i].total_bias[j]);
            let phase = rd.of(net.records[i].ema_bias[j]);
            &&& end.reliable <==> plastic >= reliable_phase::<L>(config)
            &&& end.records.len() == net.records.len()
            &&& end.reliable ==> rd.shows(
                end.records[i].total_bias[j],
                rd.of(config.fisher_decay) * (total + phase),
                rd.slack + rd.slack,
            )
            &&& !end.reliable ==> end.records[i].total_bias == net.records[i].total_bias
            &&& end.records[i].ema_bias[j] == Scalar::zero()
            &&& end.records[i].snapshot_bias == Some(layers[i].bias)
        }),
{
    a_cycle_adds_and_fades_biases::<L>(
        rd,
        net.records[i],
        plastic >= reliable_phase::<L>(config),
        config.fisher_decay,
        layers[i],
        j,
        bound,
    );
}

} // verus!
