//! Configuration of the agent and the defaults of its fields.

use vstd::prelude::*;

use crate::linalg::LinAlg;
use crate::networks::{MlpCriticConfig, PcActorConfig};
use crate::reading::{reads, reads_order, sized, Reading};
use crate::scalar::Scalar;

verus! {

/// Distance from `-1.0` within which a replay floor counts as not set.
pub const SENTINEL_EPSILON_BITS: u64 = 0x3e11_2e0b_e826_d695;

/// The number `-1.0`.
pub const MINUS_ONE_BITS: u64 = 0xbff0_0000_0000_0000;

/// The number `10.0`.
pub const TEN_BITS: u64 = 0x4024_0000_0000_0000;

/// What an agent chooses from.
#[derive(Clone, Copy, Debug, PartialEq, Eq, Structural)]
pub enum ActionSpace {
    /// One of finitely many actions, drawn from a softmax over the actor's output.
    Discrete,
    /// A vector, drawn from a Gaussian around the actor's output.
    Continuous,
}

impl Default for ActionSpace {
    fn default() -> (r: Self)
        ensures
            r == ActionSpace::Discrete,
    {
        ActionSpace::Discrete
    }
}

/// The name of an action space.
pub open spec fn action_space_text(a: ActionSpace) -> Seq<char> {
    match a {
        ActionSpace::Discrete => "Discrete"@,
        ActionSpace::Continuous => "Continuous"@,
    }
}

/// The name of an action space.
pub fn action_space_name(a: ActionSpace) -> (r: &'static str)
    ensures
        r@ == action_space_text(a),
{
    match a {
        ActionSpace::Discrete => "Discrete",
        ActionSpace::Continuous => "Continuous",
    }
}

/// A replay floor that says "not set": within a hair of `-1.0`.
pub open spec fn floor_unset<L: LinAlg>(value: Scalar) -> bool {
    L::minus(value, Scalar { bits: MINUS_ONE_BITS }).magnitude_of().below(
        Scalar { bits: SENTINEL_EPSILON_BITS },
    )
}

/// Whether a replay floor says "not set".
pub fn is_replay_floor_sentinel<L: LinAlg>(value: Scalar) -> (r: bool)
    ensures
        r == floor_unset::<L>(value),
{
    L::scalar_sub(value, Scalar::from_bits(MINUS_ONE_BITS)).abs().lt(
        Scalar::from_bits(SENTINEL_EPSILON_BITS),
    )
}

/// The highest replay floor: ten times the ceiling.
pub open spec fn highest_replay_floor<L: LinAlg>(scale_ceil: Scalar) -> Scalar {
    L::times(Scalar { bits: TEN_BITS }, scale_ceil)
}

/// A replay floor that is set: a scale from zero to ten times the ceiling. Anything else, the
/// usual `-1.0` above all, leaves replay to the scale that holds otherwise.
pub open spec fn floor_set<L: LinAlg>(value: Scalar, scale_ceil: Scalar) -> bool {
    !floor_unset::<L>(value) && value.within(
        Scalar::zero(),
        highest_replay_floor::<L>(scale_ceil),
    )
}

/// Whether a replay floor is set.
pub fn is_replay_floor_set<L: LinAlg>(value: Scalar, scale_ceil: Scalar) -> (r: bool)
    ensures
        r == floor_set::<L>(value, scale_ceil),
{
    !is_replay_floor_sentinel::<L>(value) && value.in_range(
        Scalar::zero(),
        L::scalar_mul(Scalar::from_bits(TEN_BITS), scale_ceil),
    )
}

/// Default spread of the Gaussian policy: `0.1`.
pub fn default_policy_sigma() -> (r: Scalar)
    ensures
        r.bits == 0x3fb9_9999_9999_999a,
{
    Scalar::from_bits(0x3fb9_9999_9999_999a)
}

/// Default discount factor: `0.95`.
pub fn default_gamma() -> (r: Scalar)
    ensures
        r.bits == 0x3fee_6666_6666_6666,
{
    Scalar::from_bits(0x3fee_6666_6666_6666)
}

/// Default surprise threshold for the least learning: `0.02`.
pub fn default_surprise_low() -> (r: Scalar)
    ensures
        r.bits == 0x3f94_7ae1_47ae_147b,
{
    Scalar::from_bits(0x3f94_7ae1_47ae_147b)
}

/// Default surprise threshold for the most learning: `0.15`.
pub fn default_surprise_high() -> (r: Scalar)
    ensures
        r.bits == 0x3fc3_3333_3333_3333,
{
    Scalar::from_bits(0x3fc3_3333_3333_3333)
}

/// Default weight of the entropy term: `0.01`.
pub fn default_entropy_coeff() -> (r: Scalar)
    ensures
        r.bits == 0x3f84_7ae1_47ae_147b,
{
    Scalar::from_bits(0x3f84_7ae1_47ae_147b)
}

/// Default least learning scale: `0.0`.
pub fn default_scale_floor() -> (r: Scalar)
    ensures
        r.bits == 0x0000_0000_0000_0000,
{
    Scalar::from_bits(0x0000_0000_0000_0000)
}

/// Default greatest learning scale: `2.0`.
pub fn default_scale_ceil() -> (r: Scalar)
    ensures
        r.bits == 0x4000_0000_0000_0000,
{
    Scalar::from_bits(0x4000_0000_0000_0000)
}

/// Default wake fraction of the actor: `0.5`.
pub fn default_actor_wake_fraction() -> (r: Scalar)
    ensures
        r.bits == 0x3fe0_0000_0000_0000,
{
    Scalar::from_bits(0x3fe0_0000_0000_0000)
}

/// Default sleep fraction of the actor: `0.3`.
pub fn default_actor_sleep_fraction() -> (r: Scalar)
    ensures
        r.bits == 0x3fd3_3333_3333_3333,
{
    Scalar::from_bits(0x3fd3_3333_3333_3333)
}

/// Default wake fraction of the critic: `0.5`.
pub fn default_critic_wake_fraction() -> (r: Scalar)
    ensures
        r.bits == 0x3fe0_0000_0000_0000,
{
    Scalar::from_bits(0x3fe0_0000_0000_0000)
}

/// Default sleep fraction of the critic: `0.3`.
pub fn default_critic_sleep_fraction() -> (r: Scalar)
    ensures
        r.bits == 0x3fd3_3333_3333_3333,
{
    Scalar::from_bits(0x3fd3_3333_3333_3333)
}

/// Default decay base of the actor (no decay): `1.0`.
pub fn default_consolidation_decay() -> (r: Scalar)
    ensures
        r.bits == 0x3ff0_0000_0000_0000,
{
    Scalar::from_bits(0x3ff0_0000_0000_0000)
}

/// Default decay base of the critic (no decay): `1.0`.
pub fn default_critic_consolidation_decay() -> (r: Scalar)
    ensures
        r.bits == 0x3ff0_0000_0000_0000,
{
    Scalar::from_bits(0x3ff0_0000_0000_0000)
}

/// Default smoothing of the per-layer prediction error: `0.99`.
pub fn default_consolidation_ema_beta() -> (r: Scalar)
    ensures
        r.bits == 0x3fef_ae14_7ae1_47ae,
{
    Scalar::from_bits(0x3fef_ae14_7ae1_47ae)
}

/// Default steepness of the adaptive decay: `10.0`.
pub fn default_consolidation_sigmoid_k() -> (r: Scalar)
    ensures
        r.bits == 0x4024_0000_0000_0000,
{
    Scalar::from_bits(0x4024_0000_0000_0000)
}

/// Default midpoint of the adaptive decay: `0.05`.
pub fn default_consolidation_error_threshold() -> (r: Scalar)
    ensures
        r.bits == 0x3fa9_9999_9999_999a,
{
    Scalar::from_bits(0x3fa9_9999_9999_999a)
}

/// Default strength of elastic weight consolidation (off): `0.0`.
pub fn default_ewc_lambda() -> (r: Scalar)
    ensures
        r.bits == 0x0000_0000_0000_0000,
{
    Scalar::from_bits(0x0000_0000_0000_0000)
}

/// Default decay of the accumulated Fisher information: `0.9`.
pub fn default_fisher_decay() -> (r: Scalar)
    ensures
        r.bits == 0x3fec_cccc_cccc_cccd,
{
    Scalar::from_bits(0x3fec_cccc_cccc_cccd)
}

/// Default smoothing of the Fisher information: `0.99`.
pub fn default_fisher_ema_beta() -> (r: Scalar)
    ensures
        r.bits == 0x3fef_ae14_7ae1_47ae,
{
    Scalar::from_bits(0x3fef_ae14_7ae1_47ae)
}

/// Default averaging rate of the Polyak target: `0.005`.
pub fn default_polyak_tau() -> (r: Scalar)
    ensures
        r.bits == 0x3f74_7ae1_47ae_147b,
{
    Scalar::from_bits(0x3f74_7ae1_47ae_147b)
}

/// Default replay scale of the actor (not set): `-1.0`.
pub fn default_scale_floor_replay() -> (r: Scalar)
    ensures
        r.bits == 0xbff0_0000_0000_0000,
{
    Scalar::from_bits(0xbff0_0000_0000_0000)
}

/// Default replay scale of the critic (not set): `-1.0`.
pub fn default_critic_floor_replay() -> (r: Scalar)
    ensures
        r.bits == 0xbff0_0000_0000_0000,
{
    Scalar::from_bits(0xbff0_0000_0000_0000)
}

/// Default adaptive surprise thresholds: `true`.
pub fn default_adaptive_surprise() -> (r: bool)
    ensures
        r == true,
{
    true
}

/// Default length of the surprise history: `400`.
pub fn default_surprise_buffer_size() -> (r: usize)
    ensures
        r == 400,
{
    400
}

/// Default actor hysteresis: `false`.
pub fn default_actor_hysteresis() -> (r: bool)
    ensures
        r == false,
{
    false
}

/// Default fast window of the actor: `20`.
pub fn default_actor_fast_window() -> (r: usize)
    ensures
        r == 20,
{
    20
}

/// Default slow window of the actor: `100`.
pub fn default_actor_slow_window() -> (r: usize)
    ensures
        r == 100,
{
    100
}

/// Default critic hysteresis: `false`.
pub fn default_critic_hysteresis() -> (r: bool)
    ensures
        r == false,
{
    false
}

/// Default fast window of the critic: `20`.
pub fn default_critic_fast_window() -> (r: usize)
    ensures
        r == 20,
{
    20
}

/// Default slow window of the critic: `100`.
pub fn default_critic_slow_window() -> (r: usize)
    ensures
        r == 100,
{
    100
}

/// Default actor-to-critic coupling: `true`.
pub fn default_actor_wakes_critic() -> (r: bool)
    ensures
        r == true,
{
    true
}

/// Default steps before the actor wakes the critic: `1000`.
pub fn default_actor_wakes_critic_threshold() -> (r: u64)
    ensures
        r == 1000,
{
    1000
}

/// Default critic-to-actor coupling: `true`.
pub fn default_critic_wakes_actor() -> (r: bool)
    ensures
        r == true,
{
    true
}

/// Default steps before the critic wakes the actor: `1000`.
pub fn default_critic_wakes_actor_threshold() -> (r: u64)
    ensures
        r == 1000,
{
    1000
}

/// Default adaptive consolidation: `false`.
pub fn default_adaptive_consolidation() -> (r: bool)
    ensures
        r == false,
{
    false
}

/// Default logits reversal: `false`.
pub fn default_logits_reversal() -> (r: bool)
    ensures
        r == false,
{
    false
}

/// Default steps of the n-step return: `0`.
pub fn default_td_steps() -> (r: usize)
    ensures
        r == 0,
{
    0
}

/// Default positive-reward filter of the replay memory: `true`.
pub fn default_replay_positive_only() -> (r: bool)
    ensures
        r == true,
{
    true
}

/// Default replay batch size: `64`.
pub fn default_replay_batch_size() -> (r: usize)
    ensures
        r == 64,
{
    64
}

/// Default eligibility-trace decay: none.
pub fn default_gae_lambda() -> (r: Option<Scalar>)
    ensures
        r is None,
{
    None
}

/// Configuration of the agent.
#[derive(Clone, Debug)]
pub struct PcActorCriticConfig {
    /// Actor network.
    pub actor: PcActorConfig,
    /// Critic network.
    pub critic: MlpCriticConfig,
    /// Discount factor.
    pub gamma: Scalar,
    /// Surprise at or below which learning runs at `scale_floor`.
    pub surprise_low: Scalar,
    /// Surprise at or above which learning runs at `scale_ceil`.
    pub surprise_high: Scalar,
    /// Whether the surprise thresholds follow the recent history.
    pub adaptive_surprise: bool,
    /// Longest surprise history kept.
    pub surprise_buffer_size: usize,
    /// Weight of the entropy term.
    pub entropy_coeff: Scalar,
    /// Least learning scale; `0.0` freezes.
    pub scale_floor: Scalar,
    /// Greatest learning scale; above `scale_floor`.
    pub scale_ceil: Scalar,
    /// Whether the actor has a plasticity state machine.
    pub actor_hysteresis: bool,
    /// Fast window of the actor.
    pub actor_fast_window: usize,
    /// Slow window of the actor.
    pub actor_slow_window: usize,
    /// How far the fast average has to rise above the slow one to wake the actor.
    pub actor_wake_fraction: Scalar,
    /// How far the fast average has to fall below the slow one to freeze the actor.
    pub actor_sleep_fraction: Scalar,
    /// Whether the critic has a plasticity state machine.
    pub critic_hysteresis: bool,
    /// Fast window of the critic.
    pub critic_fast_window: usize,
    /// Slow window of the critic.
    pub critic_slow_window: usize,
    /// How far the fast average has to rise above the slow one to wake the critic.
    pub critic_wake_fraction: Scalar,
    /// How far the fast average has to fall below the slow one to freeze the critic.
    pub critic_sleep_fraction: Scalar,
    /// Whether a plastic actor wakes a frozen critic.
    pub actor_wakes_critic: bool,
    /// Steps that this takes.
    pub actor_wakes_critic_threshold: u64,
    /// Whether a plastic critic wakes a frozen actor.
    pub critic_wakes_actor: bool,
    /// Steps that this takes.
    pub critic_wakes_actor_threshold: u64,
    /// Decay base of the actor: hidden layer `i` of `n` learns at `decay^(n - 1 - i)`.
    pub consolidation_decay: Scalar,
    /// Decay base of the critic.
    pub critic_consolidation_decay: Scalar,
    /// Whether the actor's decay follows the prediction error of each layer.
    pub adaptive_consolidation: bool,
    /// Smoothing of the per-layer prediction error.
    pub consolidation_ema_beta: Scalar,
    /// Steepness of the adaptive decay.
    pub consolidation_sigmoid_k: Scalar,
    /// Midpoint of the adaptive decay.
    pub consolidation_error_threshold: Scalar,
    /// Strength of elastic weight consolidation; `0.0` turns it off.
    pub ewc_lambda: Scalar,
    /// Decay of the accumulated Fisher information on waking.
    pub fisher_decay: Scalar,
    /// Smoothing of the Fisher information.
    pub fisher_ema_beta: Scalar,
    /// Whether the Fisher information comes from reversed logits.
    pub logits_reversal: bool,
    /// Steps of the n-step return; `0` bootstraps after every step.
    pub td_steps: usize,
    /// Decay of the eligibility trace, where there is one.
    pub gae_lambda: Option<Scalar>,
    /// Pull toward the Polyak target; `0.0` turns it off.
    pub distillation_lambda_polyak: Scalar,
    /// Averaging rate of the Polyak target.
    pub polyak_tau: Scalar,
    /// Pull toward the frozen champion; `0.0` turns it off.
    pub distillation_lambda_frozen: Scalar,
    /// Size of the training compartment of the replay memory; `0` for no memory.
    pub replay_training_capacity: usize,
    /// Size of the recent compartment of the replay memory.
    pub replay_recent_capacity: usize,
    /// Whether only rewarded transitions are kept.
    pub replay_positive_only: bool,
    /// Transitions per replay pass.
    pub replay_batch_size: usize,
    /// Actor's learning scale during replay; about `-1.0` for "not set".
    pub scale_floor_replay: Scalar,
    /// Critic's learning scale during replay; about `-1.0` for "not set".
    pub critic_floor_replay: Scalar,
    /// What the agent chooses from.
    pub action_space: ActionSpace,
    /// Spread of the Gaussian policy; used with continuous actions only.
    pub policy_sigma: Scalar,
}

impl PcActorCriticConfig {
    /// The same settings.
    pub open spec fn alike(self, other: PcActorCriticConfig) -> bool {
        &&& self.actor.alike(other.actor)
        &&& self.critic.alike(other.critic)
        &&& self == (PcActorCriticConfig { actor: self.actor, critic: self.critic, ..other })
    }

    /// A copy.
    pub fn copy(&self) -> (r: PcActorCriticConfig)
        ensures
            r.alike(*self),
    {
        PcActorCriticConfig { actor: self.actor.copy(), critic: self.critic.copy(), ..*self }
    }
}

/// A replay floor counts where it lies from zero to ten times the ceiling, and nowhere else, up to
/// the rounding of the latter.
pub proof fn floors_count_up_to_ten_ceilings<L: LinAlg>(
    rd: Reading,
    value: Scalar,
    scale_ceil: Scalar,
)
    requires
        reads::<L>(rd),
        reads_order(rd),
        rd.of(Scalar { bits: MINUS_ONE_BITS }) == -(1 as real),
        rd.of(Scalar { bits: TEN_BITS }) == 10 as real,
        rd.of(Scalar { bits: SENTINEL_EPSILON_BITS }) + rd.slack <= 1 as real,
        value.finite(),
        scale_ceil.finite(),
        sized(rd.of(value) + 1 as real, rd.top),
        sized((10 as real) * rd.of(scale_ceil), rd.top),
    ensures
        ({
            let v = rd.of(value);
            let most = (10 as real) * rd.of(scale_ceil);
            &&& 0 as real <= v <= most - rd.slack ==> floor_set::<L>(value, scale_ceil)
            &&& v < 0 as real || v > most + rd.slack ==> !floor_set::<L>(value, scale_ceil)
        }),
{
    let m = Scalar { bits: MINUS_ONE_BITS };
    let eps = Scalar { bits: SENTINEL_EPSILON_BITS };
    assert(m.finite() && eps.finite() && (Scalar { bits: TEN_BITS }).finite());
    let d = L::minus(value, m);
    assert(rd.shows(d, rd.of(value) + 1 as real, rd.slack));
    let h = highest_replay_floor::<L>(scale_ceil);
    assert(rd.shows(h, (10 as real) * rd.of(scale_ceil), rd.slack));
    assert(Scalar::zero().finite());
    assert(value.below(Scalar::zero()) <==> rd.of(value) < 0 as real);
    assert(h.below(value) <==> rd.of(h) < rd.of(value));
    if rd.of(value) >= 0 as real {
        let a = d.magnitude_of();
        assert(d.below(Scalar::zero()) <==> rd.of(d) < 0 as real);
        assert(a.finite());
        assert(d.below(eps) <==> rd.of(d) < rd.of(eps));
    }
}

} // verus!
