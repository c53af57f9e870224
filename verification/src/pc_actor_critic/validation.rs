//! Which configurations an agent accepts, and what it says of the others.

use vstd::prelude::*;

use crate::error::PcError;
use crate::linalg::LinAlg;
use crate::networks::PcActorConfig;
use crate::pc_actor_critic::config::{
    floor_unset, highest_replay_floor, is_replay_floor_sentinel, ActionSpace,
    PcActorCriticConfig, MINUS_ONE_BITS, TEN_BITS,
};
use crate::scalar::Scalar;
use crate::text::{decimal_digits, with_count, with_scalar};

verus! {

/// A replay floor that is not set, or is finite, not strictly between `-1.0` and `0.0` and not
/// above ten times the ceiling.
pub open spec fn replay_floor_allowed<L: LinAlg>(value: Scalar, scale_ceil: Scalar) -> bool {
    floor_unset::<L>(value) || {
        &&& value.finite()
        &&& !(Scalar { bits: MINUS_ONE_BITS }.below(value) && value.below(Scalar::zero()))
        &&& !highest_replay_floor::<L>(scale_ceil).below(value)
    }
}

fn replay_floor_ok<L: LinAlg>(value: Scalar, scale_ceil: Scalar) -> (r: bool)
    ensures
        r == replay_floor_allowed::<L>(value, scale_ceil),
{
    is_replay_floor_sentinel::<L>(value) || (value.is_finite() && !(Scalar::from_bits(
        MINUS_ONE_BITS,
    ).lt(value) && value.lt(Scalar::zero())) && !L::scalar_mul(
        Scalar::from_bits(TEN_BITS),
        scale_ceil,
    ).lt(value))
}

/// What is wrong with a configuration: the text of the first check that it fails.
pub open spec fn config_complaint<L: LinAlg>(c: PcActorCriticConfig) -> Option<Seq<char>> {
    if !c.actor.lr_weights.finite() {
        Some("actor lr_weights must be finite, got "@ + L::text(c.actor.lr_weights))
    } else if !c.actor.alpha.finite() {
        Some("actor alpha must be finite, got "@ + L::text(c.actor.alpha))
    } else if !c.actor.tol.finite() {
        Some("actor tol must be finite, got "@ + L::text(c.actor.tol))
    } else if !c.actor.temperature.finite() {
        Some("actor temperature must be finite, got "@ + L::text(c.actor.temperature))
    } else if !c.actor.local_lambda.finite() {
        Some("actor local_lambda must be finite, got "@ + L::text(c.actor.local_lambda))
    } else if !c.actor.rezero_init.finite() {
        Some("actor rezero_init must be finite, got "@ + L::text(c.actor.rezero_init))
    } else if !c.critic.lr.finite() {
        Some("critic lr must be finite, got "@ + L::text(c.critic.lr))
    } else if !c.scale_floor.finite() {
        Some("scale_floor must be finite, got "@ + L::text(c.scale_floor))
    } else if !c.scale_ceil.finite() {
        Some("scale_ceil must be finite, got "@ + L::text(c.scale_ceil))
    } else if !c.gamma.within(Scalar::zero(), Scalar::one()) {
        Some("gamma must be in [0.0, 1.0], got "@ + L::text(c.gamma))
    } else if c.adaptive_surprise && c.surprise_buffer_size < 10 {
        Some(
            "surprise_buffer_size must be >= 10 when adaptive_surprise is enabled, got "@
                + decimal_digits(c.surprise_buffer_size as nat),
        )
    } else if c.scale_floor.below(Scalar::zero()) {
        Some("scale_floor must be >= 0.0, got "@ + L::text(c.scale_floor))
    } else if c.scale_ceil.at_most(c.scale_floor) {
        Some(
            "scale_ceil must be > scale_floor, got scale_ceil="@ + L::text(c.scale_ceil)
                + " scale_floor="@ + L::text(c.scale_floor),
        )
    } else if c.actor_hysteresis && c.actor_wake_fraction.at_most(Scalar::zero()) {
        Some(
            "actor_wake_fraction must be > 0.0 when actor_hysteresis enabled, got "@
                + L::text(c.actor_wake_fraction),
        )
    } else if c.actor_hysteresis
        && (c.actor_sleep_fraction.at_most(Scalar::zero())
        || Scalar::one().at_most(c.actor_sleep_fraction)) {
        Some(
            "actor_sleep_fraction must be in (0.0, 1.0) when actor_hysteresis enabled, got "@
                + L::text(c.actor_sleep_fraction),
        )
    } else if c.critic_hysteresis && c.critic_wake_fraction.at_most(Scalar::zero()) {
        Some(
            "critic_wake_fraction must be > 0.0 when critic_hysteresis enabled, got "@
                + L::text(c.critic_wake_fraction),
        )
    } else if c.critic_hysteresis
        && (c.critic_sleep_fraction.at_most(Scalar::zero())
        || Scalar::one().at_most(c.critic_sleep_fraction)) {
        Some(
            "critic_sleep_fraction must be in (0.0, 1.0) when critic_hysteresis enabled, got "@
                + L::text(c.critic_sleep_fraction),
        )
    } else if !c.consolidation_decay.within(Scalar::zero(), Scalar::one()) {
        Some("consolidation_decay must be in [0.0, 1.0], got "@ + L::text(c.consolidation_decay))
    } else if !c.critic_consolidation_decay.within(Scalar::zero(), Scalar::one()) {
        Some(
            "critic_consolidation_decay must be in [0.0, 1.0], got "@
                + L::text(c.critic_consolidation_decay),
        )
    } else if c.adaptive_consolidation && !Scalar::zero().below(c.consolidation_sigmoid_k) {
        Some(
            "consolidation_sigmoid_k must be > 0.0 when adaptive_consolidation enabled, got "@
                + L::text(c.consolidation_sigmoid_k),
        )
    } else if c.adaptive_consolidation
        && !(Scalar::zero().below(c.consolidation_ema_beta)
        && c.consolidation_ema_beta.below(Scalar::one())) {
        Some(
            "consolidation_ema_beta must be in (0.0, 1.0), got "@
                + L::text(c.consolidation_ema_beta),
        )
    } else if c.adaptive_consolidation && !Scalar::zero().below(c.consolidation_error_threshold) {
        Some(
            "consolidation_error_threshold must be > 0.0, got "@
                + L::text(c.consolidation_error_threshold),
        )
    } else if c.ewc_lambda.below(Scalar::zero()) {
        Some("ewc_lambda must be >= 0.0, got "@ + L::text(c.ewc_lambda))
    } else if Scalar::zero().below(c.ewc_lambda)
        && !c.fisher_decay.within(Scalar::zero(), Scalar::one()) {
        Some("fisher_decay must be in [0.0, 1.0], got "@ + L::text(c.fisher_decay))
    } else if Scalar::zero().below(c.ewc_lambda)
        && !(Scalar::zero().below(c.fisher_ema_beta) && c.fisher_ema_beta.below(Scalar::one())) {
        Some("fisher_ema_beta must be in (0.0, 1.0), got "@ + L::text(c.fisher_ema_beta))
    } else if c.td_steps == 1 {
        Some("td_steps=1 is not supported — use 0 for TD(0) or >= 2 for multi-step"@)
    } else if c.gae_lambda is Some && !c.gae_lambda->0.within(Scalar::zero(), Scalar::one()) {
        Some("gae_lambda must be in [0.0, 1.0], got "@ + L::text(c.gae_lambda->0))
    } else if c.gae_lambda is Some && c.td_steps > 0 {
        Some("gae_lambda and td_steps > 0 are mutually exclusive"@)
    } else if !c.distillation_lambda_polyak.finite()
        || c.distillation_lambda_polyak.below(Scalar::zero()) {
        Some(
            "distillation_lambda_polyak must be finite and >= 0.0, got "@
                + L::text(c.distillation_lambda_polyak),
        )
    } else if !c.polyak_tau.finite() || !c.polyak_tau.within(Scalar::zero(), Scalar::one()) {
        Some("polyak_tau must be finite and in [0.0, 1.0], got "@ + L::text(c.polyak_tau))
    } else if Scalar::zero().below(c.distillation_lambda_polyak)
        && c.polyak_tau.same_value(Scalar::zero()) {
        Some("polyak_tau must be > 0.0 when distillation_lambda_polyak > 0"@)
    } else if !c.distillation_lambda_frozen.finite()
        || c.distillation_lambda_frozen.below(Scalar::zero()) {
        Some(
            "distillation_lambda_frozen must be finite and >= 0.0, got "@
                + L::text(c.distillation_lambda_frozen),
        )
    } else if c.replay_recent_capacity > 0 && c.replay_training_capacity == 0 {
        Some("replay_recent_capacity > 0 requires replay_training_capacity > 0"@)
    } else if c.replay_training_capacity > 0 && c.replay_batch_size == 0 {
        Some("replay_batch_size must be > 0 when replay buffer is enabled"@)
    } else if !replay_floor_allowed::<L>(c.scale_floor_replay, c.scale_ceil) {
        Some(
            "scale_floor_replay must be finite, outside (-1.0, 0.0) and <= 10 * scale_ceil, got "@
                + L::text(c.scale_floor_replay),
        )
    } else if !replay_floor_allowed::<L>(c.critic_floor_replay, c.scale_ceil) {
        Some(
            "critic_floor_replay must be finite, outside (-1.0, 0.0) and <= 10 * scale_ceil, got "@
                + L::text(c.critic_floor_replay),
        )
    } else if c.action_space == ActionSpace::Continuous
        && !(c.policy_sigma.finite() && Scalar::zero().below(c.policy_sigma)) {
        Some(
            "policy_sigma must be > 0.0 and finite when action_space is Continuous, got "@
                + L::text(c.policy_sigma),
        )
    } else {
        None
    }
}

/// The configurations that an agent can run with.
pub open spec fn config_acceptable<L: LinAlg>(c: PcActorCriticConfig) -> bool {
    &&& c.actor.lr_weights.finite()
    &&& c.actor.alpha.finite()
    &&& c.actor.tol.finite()
    &&& c.actor.temperature.finite()
    &&& c.actor.local_lambda.finite()
    &&& c.actor.rezero_init.finite()
    &&& c.critic.lr.finite()
    &&& c.scale_floor.finite()
    &&& c.scale_ceil.finite()
    &&& c.gamma.within(Scalar::zero(), Scalar::one())
    &&& c.adaptive_surprise ==> c.surprise_buffer_size >= 10
    &&& Scalar::zero().at_most(c.scale_floor)
    &&& c.scale_floor.below(c.scale_ceil)
    &&& c.actor_hysteresis ==> {
        &&& !c.actor_wake_fraction.at_most(Scalar::zero())
        &&& !c.actor_sleep_fraction.at_most(Scalar::zero())
        &&& !Scalar::one().at_most(c.actor_sleep_fraction)
    }
    &&& c.critic_hysteresis ==> {
        &&& !c.critic_wake_fraction.at_most(Scalar::zero())
        &&& !c.critic_sleep_fraction.at_most(Scalar::zero())
        &&& !Scalar::one().at_most(c.critic_sleep_fraction)
    }
    &&& c.consolidation_decay.within(Scalar::zero(), Scalar::one())
    &&& c.critic_consolidation_decay.within(Scalar::zero(), Scalar::one())
    &&& c.adaptive_consolidation ==> {
        &&& Scalar::zero().below(c.consolidation_sigmoid_k)
        &&& Scalar::zero().below(c.consolidation_ema_beta)
        &&& c.consolidation_ema_beta.below(Scalar::one())
        &&& Scalar::zero().below(c.consolidation_error_threshold)
    }
    &&& !c.ewc_lambda.below(Scalar::zero())
    &&& Scalar::zero().below(c.ewc_lambda) ==> {
        &&& c.fisher_decay.within(Scalar::zero(), Scalar::one())
        &&& Scalar::zero().below(c.fisher_ema_beta)
        &&& c.fisher_ema_beta.below(Scalar::one())
    }
    &&& c.td_steps != 1
    &&& c.gae_lambda matches Some(lambda) ==> {
        &&& lambda.within(Scalar::zero(), Scalar::one())
        &&& c.td_steps == 0
    }
    &&& c.distillation_lambda_polyak.finite()
    &&& Scalar::zero().at_most(c.distillation_lambda_polyak)
    &&& c.polyak_tau.within(Scalar::zero(), Scalar::one())
    &&& Scalar::zero().below(c.distillation_lambda_polyak) ==> Scalar::zero().below(c.polyak_tau)
    &&& c.distillation_lambda_frozen.finite()
    &&& Scalar::zero().at_most(c.distillation_lambda_frozen)
    &&& c.replay_recent_capacity > 0 ==> c.replay_training_capacity > 0
    &&& c.replay_training_capacity > 0 ==> c.replay_batch_size > 0
    &&& replay_floor_allowed::<L>(c.scale_floor_replay, c.scale_ceil)
    &&& replay_floor_allowed::<L>(c.critic_floor_replay, c.scale_ceil)
    &&& c.action_space == ActionSpace::Continuous ==> {
        &&& c.policy_sigma.finite()
        &&& Scalar::zero().below(c.policy_sigma)
    }
}

/// A configuration is complained of exactly when it is not acceptable.
pub proof fn complaint_iff_unacceptable<L: LinAlg>(c: PcActorCriticConfig)
    ensures
        config_complaint::<L>(c) is None <==> config_acceptable::<L>(c),
{
}

/// Checks a configuration; the first failing check is reported.
pub fn validate_config<L: LinAlg>(c: &PcActorCriticConfig) -> (r: Result<(), PcError>)
    ensures
        r is Ok <==> config_complaint::<L>(*c) is None,
        r matches Err(e) ==> e.says(config_complaint::<L>(*c)->0),
{
    if !c.actor.lr_weights.is_finite() {
        return Err(
            PcError::ConfigValidation(
                with_scalar::<L>("actor lr_weights must be finite, got ", c.actor.lr_weights),
            ),
        );
    }
    if !c.actor.alpha.is_finite() {
        return Err(
            PcError::ConfigValidation(
                with_scalar::<L>("actor alpha must be finite, got ", c.actor.alpha),
            ),
        );
    }
    if !c.actor.tol.is_finite() {
        return Err(
            PcError::ConfigValidation(
                with_scalar::<L>("actor tol must be finite, got ", c.actor.tol),
            ),
        );
    }
    if !c.actor.temperature.is_finite() {
        return Err(
            PcError::ConfigValidation(
                with_scalar::<L>("actor temperature must be finite, got ", c.actor.temperature),
            ),
        );
    }
    if !c.actor.local_lambda.is_finite() {
        return Err(
            PcError::ConfigValidation(
                with_scalar::<L>("actor local_lambda must be finite, got ", c.actor.local_lambda),
            ),
        );
    }
    if !c.actor.rezero_init.is_finite() {
        return Err(
            PcError::ConfigValidation(
                with_scalar::<L>("actor rezero_init must be finite, got ", c.actor.rezero_init),
            ),
        );
    }
    if !c.critic.lr.is_finite() {
        return Err(
            PcError::ConfigValidation(
                with_scalar::<L>("critic lr must be finite, got ", c.critic.lr),
            ),
        );
    }
    if !c.scale_floor.is_finite() {
        return Err(
            PcError::ConfigValidation(
                with_scalar::<L>("scale_floor must be finite, got ", c.scale_floor),
            ),
        );
    }
    if !c.scale_ceil.is_finite() {
        return Err(
            PcError::ConfigValidation(
                with_scalar::<L>("scale_ceil must be finite, got ", c.scale_ceil),
            ),
        );
    }
    if !c.gamma.in_range(Scalar::zero(), Scalar::one()) {
        return Err(
            PcError::ConfigValidation(
                with_scalar::<L>("gamma must be in [0.0, 1.0], got ", c.gamma),
            ),
        );
    }
    if c.adaptive_surprise && c.surprise_buffer_size < 10 {
        return Err(
            PcError::ConfigValidation(
                with_count(
                    "surprise_buffer_size must be >= 10 when adaptive_surprise is enabled, got ",
                    c.surprise_buffer_size as u64,
                ),
            ),
        );
    }
    if c.scale_floor.lt(Scalar::zero()) {
        return Err(
            PcError::ConfigValidation(
                with_scalar::<L>("scale_floor must be >= 0.0, got ", c.scale_floor),
            ),
        );
    }
    if c.scale_ceil.le(c.scale_floor) {
        let mut s = with_scalar::<L>(
            "scale_ceil must be > scale_floor, got scale_ceil=",
            c.scale_ceil,
        );
        let t = with_scalar::<L>(" scale_floor=", c.scale_floor);
        s.append(t.as_str());
        proof {
            let a = "scale_ceil must be > scale_floor, got scale_ceil="@;
            let b = " scale_floor="@;
            assert(
                a + L::text(c.scale_ceil) + (b + L::text(c.scale_floor)) =~= a
                    + L::text(c.scale_ceil) + b + L::text(c.scale_floor)
            );
        }
        return Err(PcError::ConfigValidation(s));
    }
    if c.actor_hysteresis && c.actor_wake_fraction.le(Scalar::zero()) {
        return Err(
            PcError::ConfigValidation(
                with_scalar::<L>(
                    "actor_wake_fraction must be > 0.0 when actor_hysteresis enabled, got ",
                    c.actor_wake_fraction,
                ),
            ),
        );
    }
    if c.actor_hysteresis
        && (c.actor_sleep_fraction.le(Scalar::zero()) || Scalar::one().le(c.actor_sleep_fraction)) {
        return Err(
            PcError::ConfigValidation(
                with_scalar::<L>(
                    "actor_sleep_fraction must be in (0.0, 1.0) when actor_hysteresis enabled, got ",
                    c.actor_sleep_fraction,
                ),
            ),
        );
    }
    if c.critic_hysteresis && c.critic_wake_fraction.le(Scalar::zero()) {
        return Err(
            PcError::ConfigValidation(
                with_scalar::<L>(
                    "critic_wake_fraction must be > 0.0 when critic_hysteresis enabled, got ",
                    c.critic_wake_fraction,
                ),
            ),
        );
    }
    if c.critic_hysteresis
        && (c.critic_sleep_fraction.le(Scalar::zero()) || Scalar::one().le(
            c.critic_sleep_fraction,
        )) {
        return Err(
            PcError::ConfigValidation(
                with_scalar::<L>(
                    "critic_sleep_fraction must be in (0.0, 1.0) when critic_hysteresis enabled, got ",
                    c.critic_sleep_fraction,
                ),
            ),
        );
    }
    if !c.consolidation_decay.in_range(Scalar::zero(), Scalar::one()) {
        return Err(
            PcError::ConfigValidation(
                with_scalar::<L>(
                    "consolidation_decay must be in [0.0, 1.0], got ",
                    c.consolidation_decay,
                ),
            ),
        );
    }
    if !c.critic_consolidation_decay.in_range(Scalar::zero(), Scalar::one()) {
        return Err(
            PcError::ConfigValidation(
                with_scalar::<L>(
                    "critic_consolidation_decay must be in [0.0, 1.0], got ",
                    c.critic_consolidation_decay,
                ),
            ),
        );
    }
    if c.adaptive_consolidation && !Scalar::zero().lt(c.consolidation_sigmoid_k) {
        return Err(
            PcError::ConfigValidation(
                with_scalar::<L>(
                    "consolidation_sigmoid_k must be > 0.0 when adaptive_consolidation enabled, got ",
                    c.consolidation_sigmoid_k,
                ),
            ),
        );
    }
    if c.adaptive_consolidation
        && !(Scalar::zero().lt(
            c.consolidation_ema_beta,
        ) && c.consolidation_ema_beta.lt(Scalar::one())) {
        return Err(
            PcError::ConfigValidation(
                with_scalar::<L>(
                    "consolidation_ema_beta must be in (0.0, 1.0), got ",
                    c.consolidation_ema_beta,
                ),
            ),
        );
    }
    if c.adaptive_consolidation && !Scalar::zero().lt(c.consolidation_error_threshold) {
        return Err(
            PcError::ConfigValidation(
                with_scalar::<L>(
                    "consolidation_error_threshold must be > 0.0, got ",
                    c.consolidation_error_threshold,
                ),
            ),
        );
    }
    if c.ewc_lambda.lt(Scalar::zero()) {
        return Err(
            PcError::ConfigValidation(
                with_scalar::<L>("ewc_lambda must be >= 0.0, got ", c.ewc_lambda),
            ),
        );
    }
    if Scalar::zero().lt(c.ewc_lambda) && !c.fisher_decay.in_range(Scalar::zero(), Scalar::one()) {
        return Err(
            PcError::ConfigValidation(
                with_scalar::<L>("fisher_decay must be in [0.0, 1.0], got ", c.fisher_decay),
            ),
        );
    }
    if Scalar::zero().lt(c.ewc_lambda)
        && !(Scalar::zero().lt(c.fisher_ema_beta) && c.fisher_ema_beta.lt(Scalar::one())) {
        return Err(
            PcError::ConfigValidation(
                with_scalar::<L>("fisher_ema_beta must be in (0.0, 1.0), got ", c.fisher_ema_beta),
            ),
        );
    }
    if c.td_steps == 1 {
        return Err(
            PcError::ConfigValidation(
                String::from_str(
                    "td_steps=1 is not supported — use 0 for TD(0) or >= 2 for multi-step",
                ),
            ),
        );
    }
    if let Some(lambda) = c.gae_lambda {
        if !lambda.in_range(Scalar::zero(), Scalar::one()) {
            return Err(
                PcError::ConfigValidation(
                    with_scalar::<L>("gae_lambda must be in [0.0, 1.0], got ", lambda),
                ),
            );
        }
    }
    if c.gae_lambda.is_some() && c.td_steps > 0 {
        return Err(
            PcError::ConfigValidation(
                String::from_str("gae_lambda and td_steps > 0 are mutually exclusive"),
            ),
        );
    }
    if !c.distillation_lambda_polyak.is_finite()
        || c.distillation_lambda_polyak.lt(Scalar::zero()) {
        return Err(
            PcError::ConfigValidation(
                with_scalar::<L>(
                    "distillation_lambda_polyak must be finite and >= 0.0, got ",
                    c.distillation_lambda_polyak,
                ),
            ),
        );
    }
    if !c.polyak_tau.is_finite() || !c.polyak_tau.in_range(Scalar::zero(), Scalar::one()) {
        return Err(
            PcError::ConfigValidation(
                with_scalar::<L>("polyak_tau must be finite and in [0.0, 1.0], got ", c.polyak_tau),
            ),
        );
    }
    if Scalar::zero().lt(c.distillation_lambda_polyak) && c.polyak_tau.num_eq(Scalar::zero()) {
        return Err(
            PcError::ConfigValidation(
                String::from_str("polyak_tau must be > 0.0 when distillation_lambda_polyak > 0"),
            ),
        );
    }
    if !c.distillation_lambda_frozen.is_finite()
        || c.distillation_lambda_frozen.lt(Scalar::zero()) {
        return Err(
            PcError::ConfigValidation(
                with_scalar::<L>(
                    "distillation_lambda_frozen must be finite and >= 0.0, got ",
                    c.distillation_lambda_frozen,
                ),
            ),
        );
    }
    if c.replay_recent_capacity > 0 && c.replay_training_capacity == 0 {
        return Err(
            PcError::ConfigValidation(
                String::from_str(
                    "replay_recent_capacity > 0 requires replay_training_capacity > 0",
                ),
            ),
        );
    }
    if c.replay_training_capacity > 0 && c.replay_batch_size == 0 {
        return Err(
            PcError::ConfigValidation(
                String::from_str("replay_batch_size must be > 0 when replay buffer is enabled"),
            ),
        );
    }
    if !replay_floor_ok::<L>(c.scale_floor_replay, c.scale_ceil) {
        return Err(
            PcError::ConfigValidation(
                with_scalar::<L>(
                    "scale_floor_replay must be finite, outside (-1.0, 0.0) and <= 10 * scale_ceil, got ",
                    c.scale_floor_replay,
                ),
            ),
        );
    }
    if !replay_floor_ok::<L>(c.critic_floor_replay, c.scale_ceil) {
        return Err(
            PcError::ConfigValidation(
                with_scalar::<L>(
                    "critic_floor_replay must be finite, outside (-1.0, 0.0) and <= 10 * scale_ceil, got ",
                    c.critic_floor_replay,
                ),
            ),
        );
    }
    if c.action_space == ActionSpace::Continuous
        && !(c.policy_sigma.is_finite() && Scalar::zero().lt(c.policy_sigma)) {
        return Err(
            PcError::ConfigValidation(
                with_scalar::<L>(
                    "policy_sigma must be > 0.0 and finite when action_space is Continuous, got ",
                    c.policy_sigma,
                ),
            ),
        );
    }
    Ok(())
}

/// What is said of actor settings that no network can be built from.
pub open spec fn actor_complaint(c: PcActorConfig) -> Option<Seq<char>> {
    if c.input_size == 0 {
        Some("actor input_size must be > 0"@)
    } else if c.output_size == 0 {
        Some("actor output_size must be > 0"@)
    } else if !Scalar::zero().below(c.temperature) {
        Some("actor temperature must be > 0"@)
    } else {
        None
    }
}

/// What is said of settings that no agent can be built from.
pub open spec fn build_complaint<L: LinAlg>(c: PcActorCriticConfig) -> Option<Seq<char>> {
    match config_complaint::<L>(c) {
        Some(text) => Some(text),
        None => actor_complaint(c.actor),
    }
}

/// Refuses settings that no agent can be built from.
pub fn validate_build<L: LinAlg>(config: &PcActorCriticConfig) -> (r: Result<(), PcError>)
    ensures
        r is Ok <==> build_complaint::<L>(*config) is None,
        r matches Err(e) ==> e.says(build_complaint::<L>(*config)->0),
{
    match validate_config::<L>(config) {
        Ok(()) => {},
        Err(e) => {
            return Err(e);
        },
    }
    let text = if config.actor.input_size == 0 {
        "actor input_size must be > 0"
    } else if config.actor.output_size == 0 {
        "actor output_size must be > 0"
    } else if !Scalar::zero().lt(config.actor.temperature) {
        "actor temperature must be > 0"
    } else {
        return Ok(());
    };
    Err(PcError::ConfigValidation(String::from_str(text)))
}

} // verus!
