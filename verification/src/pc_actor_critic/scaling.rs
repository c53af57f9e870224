//! How strongly a step is learned from: surprise, plasticity and consolidation.

use std::collections::VecDeque;

use vstd::prelude::*;

use crate::linalg::LinAlg;
use crate::numeric::{average, deviation, mean, spread, HALF_BITS, THREE_HALVES_BITS};
use crate::pc_actor_critic::agent::PcActorCritic;
use crate::pc_actor_critic::config::{floor_set, is_replay_floor_set, PcActorCriticConfig};
use crate::pc_actor_critic::replay::copy_scalars;
use crate::reading::{near, reads, reads_order, reads_quotients, sized, Reading};
use crate::scalar::Scalar;

verus! {

/// Where a learning step comes from.
#[derive(Clone, Copy, Debug, PartialEq, Eq, Structural)]
pub enum LearnMode {
    /// From the episode that is running.
    Online,
    /// From the replay memory; what belongs to the running episode is left alone.
    Replay,
}

/// Thresholds between which the learning scale rises: the configured ones or, with ten
/// samples and more, ones around the recent average.
pub open spec fn thresholds<L: LinAlg>(
    config: PcActorCriticConfig,
    history: Seq<Scalar>,
) -> (Scalar, Scalar) {
    if config.adaptive_surprise && history.len() >= 10 {
        (
            L::minus(
                mean::<L>(history),
                L::times(Scalar { bits: HALF_BITS }, deviation::<L>(history)),
            ).larger(Scalar::zero()),
            L::plus(
                mean::<L>(history),
                L::times(Scalar { bits: THREE_HALVES_BITS }, deviation::<L>(history)),
            ),
        )
    } else {
        (config.surprise_low, config.surprise_high)
    }
}

/// The learning scale of a sample: the floor up to the lower threshold, the ceiling from the
/// upper one, a straight line between.
pub open spec fn learning_scale<L: LinAlg>(
    config: PcActorCriticConfig,
    history: Seq<Scalar>,
    sample: Scalar,
) -> Scalar {
    let (low, high) = thresholds::<L>(config, history);
    if sample.at_most(low) {
        config.scale_floor
    } else if high.at_most(sample) {
        config.scale_ceil
    } else {
        L::plus(
            config.scale_floor,
            L::times(
                L::over(L::minus(sample, low), L::minus(high, low)),
                L::minus(config.scale_ceil, config.scale_floor),
            ),
        )
    }
}

/// A history with one more sample; what is not finite is dropped, and the oldest sample
/// leaves a full history.
pub open spec fn remembered(history: Seq<Scalar>, capacity: nat, sample: Scalar) -> Seq<Scalar> {
    if !sample.finite() {
        history
    } else if history.len() >= capacity && history.len() > 0 {
        history.drop_first().push(sample)
    } else {
        history.push(sample)
    }
}

/// The learning decay of a layer with the given smoothed prediction error.
pub open spec fn adaptive_decay<L: LinAlg>(config: PcActorCriticConfig, error: Scalar) -> Scalar {
    let x = L::times(
        config.consolidation_sigmoid_k.negated(),
        L::minus(error, config.consolidation_error_threshold),
    );
    L::minus(
        Scalar::one(),
        L::over(Scalar::one(), L::plus(Scalar::one(), L::exponential(x.negated()))),
    )
}

fn history_list(history: &VecDeque<Scalar>) -> (r: Vec<Scalar>)
    ensures
        r@ == history@,
{
    let mut out: Vec<Scalar> = Vec::new();
    let mut i: usize = 0;
    while i < history.len()
        invariant
            i <= history@.len(),
            out@.len() == i,
            forall|j: int| 0 <= j < i ==> out@[j] == history@[j],
        decreases history@.len() - i,
    {
        out.push(history[i]);
        i = i + 1;
    }
    assert(out@ =~= history@);
    out
}

fn scale_of<L: LinAlg>(
    config: &PcActorCriticConfig,
    history: &VecDeque<Scalar>,
    sample: Scalar,
) -> (r: Scalar)
    ensures
        r == learning_scale::<L>(*config, history@, sample),
{
    let (low, high) = if config.adaptive_surprise && history.len() >= 10 {
        let list = history_list(history);
        let center = average::<L>(list.as_slice());
        let width = spread::<L>(list.as_slice());
        let low = L::scalar_sub(center, L::scalar_mul(Scalar::from_bits(HALF_BITS), width)).max(
            Scalar::zero(),
        );
        let high = L::scalar_add(
            center,
            L::scalar_mul(Scalar::from_bits(THREE_HALVES_BITS), width),
        );
        (low, high)
    } else {
        (config.surprise_low, config.surprise_high)
    };
    if sample.le(low) {
        config.scale_floor
    } else if high.le(sample) {
        config.scale_ceil
    } else {
        let t = L::scalar_div(L::scalar_sub(sample, low), L::scalar_sub(high, low));
        L::scalar_add(
            config.scale_floor,
            L::scalar_mul(t, L::scalar_sub(config.scale_ceil, config.scale_floor)),
        )
    }
}

fn remember(history: &mut VecDeque<Scalar>, capacity: usize, sample: Scalar)
    ensures
        final(history)@ == remembered(old(history)@, capacity as nat, sample),
{
    if !sample.is_finite() {
        return;
    }
    if history.len() >= capacity {
        let _ = history.pop_front();
    }
    history.push_back(sample);
    assert(history@ =~= remembered(old(history)@, capacity as nat, sample));
}

impl<L: LinAlg> PcActorCritic<L> {
    /// The actor's learning scale on a surprise score: the floor while it is frozen.
    pub open spec fn actor_scale(self, surprise: Scalar) -> Scalar {
        if self.actor_plasticity().is_frozen() {
            self.config.scale_floor
        } else {
            learning_scale::<L>(self.config, self.surprise_buffer@, surprise)
        }
    }

    /// The same with the replay setting taken into account: once set, it alone counts
    /// during replay.
    pub open spec fn actor_scale_in(self, surprise: Scalar, mode: LearnMode) -> Scalar {
        if mode == LearnMode::Replay && floor_set::<L>(
            self.config.scale_floor_replay,
            self.config.scale_ceil,
        ) {
            self.config.scale_floor_replay
        } else {
            self.actor_scale(surprise)
        }
    }

    /// The critic's learning scale on the magnitude of a TD error: the floor while it is
    /// frozen, and during replay the replay setting where there is one.
    pub open spec fn critic_scale_in(self, td_error: Scalar, mode: LearnMode) -> Scalar {
        if mode == LearnMode::Replay && floor_set::<L>(
            self.config.critic_floor_replay,
            self.config.scale_ceil,
        ) {
            self.config.critic_floor_replay
        } else if self.critic_plasticity().is_frozen() {
            self.config.scale_floor
        } else {
            learning_scale::<L>(self.config, self.td_error_buffer@, td_error)
        }
    }

    /// Learning decay per hidden layer of the actor.
    pub open spec fn actor_decay(self) -> Seq<Scalar> {
        if self.config.adaptive_consolidation {
            self.layer_error_ema@.map_values(|e: Scalar| adaptive_decay::<L>(self.config, e))
        } else {
            self.actor_decay_factors@
        }
    }

    /// The learning scale on a surprise score.
    pub fn surprise_scale(&self, surprise: Scalar) -> (r: Scalar)
        ensures
            r == learning_scale::<L>(self.config, self.surprise_buffer@, surprise),
    {
        scale_of::<L>(&self.config, &self.surprise_buffer, surprise)
    }

    /// The learning scale on the magnitude of a TD error.
    pub fn critic_surprise_scale(&self, td_error: Scalar) -> (r: Scalar)
        ensures
            r == learning_scale::<L>(self.config, self.td_error_buffer@, td_error),
    {
        scale_of::<L>(&self.config, &self.td_error_buffer, td_error)
    }

    /// The actor's learning scale, plasticity considered.
    pub fn effective_actor_scale(&self, surprise: Scalar) -> (r: Scalar)
        ensures
            r == self.actor_scale(surprise),
    {
        if self.is_actor_frozen() {
            self.config.scale_floor
        } else {
            self.surprise_scale(surprise)
        }
    }

    /// The actor's learning scale, plasticity and replay setting considered.
    pub fn effective_actor_scale_for_mode(&self, surprise: Scalar, mode: LearnMode) -> (r: Scalar)
        ensures
            r == self.actor_scale_in(surprise, mode),
    {
        if mode == LearnMode::Replay && is_replay_floor_set::<L>(
            self.config.scale_floor_replay,
            self.config.scale_ceil,
        ) {
            self.config.scale_floor_replay
        } else {
            self.effective_actor_scale(surprise)
        }
    }

    /// The critic's learning scale, plasticity and replay setting considered.
    pub fn effective_critic_scale_for_mode(&self, td_error: Scalar, mode: LearnMode) -> (r: Scalar)
        ensures
            r == self.critic_scale_in(td_error, mode),
    {
        if mode == LearnMode::Replay && is_replay_floor_set::<L>(
            self.config.critic_floor_replay,
            self.config.scale_ceil,
        ) {
            self.config.critic_floor_replay
        } else if self.is_critic_frozen() {
            self.config.scale_floor
        } else {
            self.critic_surprise_scale(td_error)
        }
    }

    /// Learning decay per hidden layer of the actor: fixed, or by prediction error.
    pub fn effective_actor_decay(&self) -> (r: Vec<Scalar>)
        ensures
            r@ == self.actor_decay(),
    {
        if self.config.adaptive_consolidation {
            let mut out: Vec<Scalar> = Vec::new();
            let mut i: usize = 0;
            while i < self.layer_error_ema.len()
                invariant
                    i <= self.layer_error_ema@.len(),
                    out@.len() == i,
                    forall|j: int|
                        0 <= j < i ==> out@[j] == adaptive_decay::<L>(
                            self.config,
                            self.layer_error_ema@[j],
                        ),
                decreases self.layer_error_ema@.len() - i,
            {
                let x = L::scalar_mul(
                    self.config.consolidation_sigmoid_k.neg(),
                    L::scalar_sub(
                        self.layer_error_ema[i],
                        self.config.consolidation_error_threshold,
                    ),
                );
                let sigmoid = L::scalar_div(
                    Scalar::one(),
                    L::scalar_add(Scalar::one(), L::scalar_exp(x.neg())),
                );
                out.push(L::scalar_sub(Scalar::one(), sigmoid));
                i = i + 1;
            }
            assert(out@ =~= self.actor_decay());
            out
        } else {
            copy_scalars(&self.actor_decay_factors)
        }
    }

    /// Adds a surprise score to the history.
    pub fn push_surprise(&mut self, surprise: Scalar)
        ensures
            final(self).surprise_buffer@ == remembered(
                old(self).surprise_buffer@,
                old(self).config.surprise_buffer_size as nat,
                surprise,
            ),
            *final(self) == (PcActorCritic {
                surprise_buffer: final(self).surprise_buffer,
                ..*old(self)
            }),
    {
        remember(&mut self.surprise_buffer, self.config.surprise_buffer_size, surprise);
    }

    /// Adds the magnitude of a TD error to the history.
    pub fn push_td_error(&mut self, td_error: Scalar)
        ensures
            final(self).td_error_buffer@ == remembered(
                old(self).td_error_buffer@,
                old(self).config.surprise_buffer_size as nat,
                td_error,
            ),
            *final(self) == (PcActorCritic {
                td_error_buffer: final(self).td_error_buffer,
                ..*old(self)
            }),
    {
        remember(&mut self.td_error_buffer, self.config.surprise_buffer_size, td_error);
    }
}

/// A history never outgrows its capacity (one sample is kept even at capacity zero) and never
/// holds anything that is not finite.
pub proof fn history_stays_sound(history: Seq<Scalar>, capacity: nat, sample: Scalar)
    requires
        history.len() <= capacity || history.len() <= 1,
        forall|i: int| 0 <= i < history.len() ==> (#[trigger] history[i]).finite(),
    ensures
        ({
            let h = remembered(history, capacity, sample);
            &&& h.len() <= capacity || h.len() <= 1
            &&& forall|i: int| 0 <= i < h.len() ==> (#[trigger] h[i]).finite()
        }),
{
    let h = remembered(history, capacity, sample);
    assert forall|i: int| 0 <= i < h.len() implies (#[trigger] h[i]).finite() by {
        if sample.finite() && history.len() >= capacity && history.len() > 0 && i < h.len() - 1 {
            assert(h[i] == history[i + 1]);
        }
    }
}

/// At and below the lower threshold learning runs at the floor, at and above the upper one
/// (and above the lower) at the ceiling.
pub proof fn scale_at_the_ends<L: LinAlg>(
    config: PcActorCriticConfig,
    history: Seq<Scalar>,
    sample: Scalar,
)
    ensures
        sample.at_most(thresholds::<L>(config, history).0) ==> learning_scale::<L>(
            config,
            history,
            sample,
        ) == config.scale_floor,
        !sample.at_most(thresholds::<L>(config, history).0) && thresholds::<L>(
            config,
            history,
        ).1.at_most(sample) ==> learning_scale::<L>(config, history, sample) == config.scale_ceil,
{
}

/// A frozen actor learns at the floor online, and during replay unless a replay scale is set.
pub proof fn frozen_actor_learns_at_the_floor<L: LinAlg>(
    agent: PcActorCritic<L>,
    surprise: Scalar,
    mode: LearnMode,
)
    requires
        agent.actor_plasticity().is_frozen(),
        mode == LearnMode::Online || !floor_set::<L>(
            agent.config.scale_floor_replay,
            agent.config.scale_ceil,
        ),
    ensures
        agent.actor_scale_in(surprise, mode) == agent.config.scale_floor,
{
}

/// A replay scale that is set holds whatever state the networks are in.
pub proof fn replay_scale_overrides_plasticity<L: LinAlg>(
    agent: PcActorCritic<L>,
    surprise: Scalar,
    td_error: Scalar,
)
    ensures
        floor_set::<L>(agent.config.scale_floor_replay, agent.config.scale_ceil) ==> agent.actor_scale_in(
            surprise,
            LearnMode::Replay,
        ) == agent.config.scale_floor_replay,
        floor_set::<L>(agent.config.critic_floor_replay, agent.config.scale_ceil) ==> agent.critic_scale_in(
            td_error,
            LearnMode::Replay,
        ) == agent.config.critic_floor_replay,
{
}

/// Arithmetic that respects the order of numbers, as rounding to the nearest double does: sums,
/// differences, and products and quotients by what is not negative, keep the order; a number
/// minus itself and nothing times or over something is nothing, and a number over itself is one.
pub open spec fn keeps_order<L: LinAlg>() -> bool {
    &&& forall|a: Scalar, b: Scalar, c: Scalar|
        a.at_most(b) && c.finite() ==> (#[trigger] L::minus(a, c)).at_most(
            #[trigger] L::minus(b, c),
        )
    &&& forall|a: Scalar, b: Scalar, c: Scalar|
        a.at_most(b) && c.finite() ==> (#[trigger] L::plus(c, a)).at_most(#[trigger] L::plus(c, b))
    &&& forall|a: Scalar, b: Scalar, d: Scalar|
        a.at_most(b) && Scalar::zero().below(d) && d.finite() ==> (#[trigger] L::over(
            a,
            d,
        )).at_most(#[trigger] L::over(b, d))
    &&& forall|a: Scalar, b: Scalar, k: Scalar|
        a.at_most(b) && a.finite() && b.finite() && Scalar::zero().at_most(k) && k.finite() ==> (
        #[trigger] L::times(a, k)).at_most(#[trigger] L::times(b, k))
    &&& forall|a: Scalar, b: Scalar|
        a.below(b) && a.finite() && b.finite() ==> Scalar::zero().below(#[trigger] L::minus(b, a))
    &&& forall|a: Scalar| a.finite() ==> (#[trigger] L::minus(a, a)).same_value(Scalar::zero())
    &&& forall|d: Scalar|
        Scalar::zero().below(d) && d.finite() ==> (#[trigger] L::over(
            Scalar::zero(),
            d,
        )).same_value(Scalar::zero())
    &&& forall|d: Scalar|
        Scalar::zero().below(d) && d.finite() ==> (#[trigger] L::over(d, d)).same_value(
            Scalar::one(),
        )
    &&& forall|k: Scalar|
        Scalar::zero().at_most(k) && k.finite() ==> (#[trigger] L::times(
            Scalar::zero(),
            k,
        )).same_value(Scalar::zero())
    &&& forall|k: Scalar|
        k.finite() ==> (#[trigger] L::times(Scalar::one(), k)).same_value(k)
    &&& forall|c: Scalar|
        c.finite() ==> (#[trigger] L::plus(c, Scalar::zero())).same_value(c)
}

/// Thresholds and bounds that a scale can run between: finite, in order, and not so far apart
/// that their distances overflow.
pub open spec fn scale_is_bounded<L: LinAlg>(
    config: PcActorCriticConfig,
    history: Seq<Scalar>,
) -> bool {
    let (low, high) = thresholds::<L>(config, history);
    &&& low.finite()
    &&& high.finite()
    &&& low.at_most(high)
    &&& L::minus(high, low).finite()
    &&& config.scale_floor.finite()
    &&& config.scale_ceil.finite()
    &&& config.scale_floor.at_most(config.scale_ceil)
    &&& L::minus(config.scale_ceil, config.scale_floor).finite()
}

/// The scale at a share of the way up the straight line: `floor + t * (ceil - floor)`.
pub open spec fn along_the_line<L: LinAlg>(config: PcActorCriticConfig, t: Scalar) -> Scalar {
    L::plus(
        config.scale_floor,
        L::times(t, L::minus(config.scale_ceil, config.scale_floor)),
    )
}

proof fn share_is_within<L: LinAlg>(low: Scalar, high: Scalar, sample: Scalar)
    requires
        keeps_order::<L>(),
        low.finite(),
        high.finite(),
        L::minus(high, low).finite(),
        low.below(sample),
        sample.below(high),
    ensures
        L::over(L::minus(sample, low), L::minus(high, low)).within(Scalar::zero(), Scalar::one()),
        Scalar::zero().below(L::minus(high, low)),
{
    let d = L::minus(high, low);
    let x = L::minus(sample, low);
    assert(low.below(high));
    assert(L::minus(low, low).at_most(x));
    assert(x.at_most(d));
    assert(Scalar::zero().at_most(x));
    assert(L::over(Scalar::zero(), d).at_most(L::over(x, d)));
    assert(L::over(x, d).at_most(L::over(d, d)));
}

proof fn line_is_ordered<L: LinAlg>(config: PcActorCriticConfig, s: Scalar, t: Scalar)
    requires
        keeps_order::<L>(),
        config.scale_floor.finite(),
        config.scale_ceil.finite(),
        config.scale_floor.at_most(config.scale_ceil),
        L::minus(config.scale_ceil, config.scale_floor).finite(),
        s.within(Scalar::zero(), Scalar::one()),
        t.within(Scalar::zero(), Scalar::one()),
        s.at_most(t),
    ensures
        along_the_line::<L>(config, s).at_most(along_the_line::<L>(config, t)),
        config.scale_floor.at_most(along_the_line::<L>(config, s)),
        along_the_line::<L>(config, t).at_most(
            L::plus(
                config.scale_floor,
                L::minus(config.scale_ceil, config.scale_floor),
            ),
        ),
{
    let floor = config.scale_floor;
    let k = L::minus(config.scale_ceil, floor);
    assert(L::minus(floor, floor).at_most(k));
    assert(Scalar::zero().at_most(k));
    assert(L::times(s, k).at_most(L::times(t, k)));
    assert(L::times(Scalar::zero(), k).at_most(L::times(s, k)));
    assert(L::times(t, k).at_most(L::times(Scalar::one(), k)));
    assert(Scalar::zero().at_most(L::times(s, k)));
    assert(L::times(t, k).at_most(k));
    assert(L::plus(floor, Scalar::zero()).at_most(L::plus(floor, L::times(s, k))));
}

/// The learning scale grows with the sample and never falls under the floor, with arithmetic that
/// keeps the order of numbers. It does not exceed the ceiling, and grows up to it, unless the
/// ceiling's distance from the floor, added to the floor, is rounded past the ceiling.
pub proof fn scale_grows<L: LinAlg>(
    config: PcActorCriticConfig,
    history: Seq<Scalar>,
    x: Scalar,
    y: Scalar,
)
    requires
        keeps_order::<L>(),
        scale_is_bounded::<L>(config, history),
        x.finite(),
        y.finite(),
        x.at_most(y),
    ensures
        ({
            let (low, high) = thresholds::<L>(config, history);
            let a = learning_scale::<L>(config, history, x);
            let b = learning_scale::<L>(config, history, y);
            let reached = L::plus(
                config.scale_floor,
                L::minus(config.scale_ceil, config.scale_floor),
            );
            &&& config.scale_floor.at_most(a)
            &&& y.below(high) || high.at_most(x) || x.at_most(low) ==> a.at_most(b)
            &&& a.at_most(config.scale_ceil) || a.at_most(reached)
            &&& reached.at_most(config.scale_ceil) ==> a.at_most(b) && b.at_most(
                config.scale_ceil,
            )
        }),
{
    let (low, high) = thresholds::<L>(config, history);
    let between_x = low.below(x) && x.below(high);
    let between_y = low.below(y) && y.below(high);
    let d = L::minus(high, low);
    let s = L::over(L::minus(x, low), d);
    let t = L::over(L::minus(y, low), d);
    if between_x {
        share_is_within::<L>(low, high, x);
        line_is_ordered::<L>(config, s, s);
    }
    if between_y {
        share_is_within::<L>(low, high, y);
        line_is_ordered::<L>(config, t, t);
    }
    if between_x && between_y {
        assert(L::minus(x, low).at_most(L::minus(y, low)));
        line_is_ordered::<L>(config, s, t);
    }
}

/// Functions that respect the order of numbers, as those on doubles do: a product with what is not
/// positive, a difference from a number and one over a positive number turn the order round, and
/// the exponential keeps it and is never negative.
pub open spec fn keeps_order_further<L: LinAlg>() -> bool {
    &&& forall|a: Scalar, b: Scalar, k: Scalar|
        a.at_most(b) && a.finite() && b.finite() && k.at_most(Scalar::zero()) && k.finite() ==> (
        #[trigger] L::times(k, b)).at_most(#[trigger] L::times(k, a))
    &&& forall|a: Scalar, b: Scalar, c: Scalar|
        a.at_most(b) && c.finite() ==> (#[trigger] L::minus(c, b)).at_most(
            #[trigger] L::minus(c, a),
        )
    &&& forall|a: Scalar, b: Scalar|
        Scalar::zero().below(a) && a.at_most(b) ==> (#[trigger] L::over(
            Scalar::one(),
            b,
        )).at_most(#[trigger] L::over(Scalar::one(), a))
    &&& forall|a: Scalar, b: Scalar|
        a.at_most(b) ==> (#[trigger] L::exponential(a)).at_most(#[trigger] L::exponential(b))
    &&& forall|a: Scalar| !a.nan() ==> Scalar::zero().at_most(#[trigger] L::exponential(a))
}

proof fn sigmoid_is_ordered<L: LinAlg>(x: Scalar, y: Scalar)
    requires
        keeps_order::<L>(),
        keeps_order_further::<L>(),
        y.at_most(x),
    ensures
        L::minus(
            Scalar::one(),
            L::over(Scalar::one(), L::plus(Scalar::one(), L::exponential(x.negated()))),
        ).at_most(
            L::minus(
                Scalar::one(),
                L::over(Scalar::one(), L::plus(Scalar::one(), L::exponential(y.negated()))),
            ),
        ),
{
    let one = Scalar::one();
    let p = L::exponential(x.negated());
    let q = L::exponential(y.negated());
    assert(x.negated().at_most(y.negated()));
    assert(p.at_most(q));
    assert(Scalar::zero().at_most(p));
    assert(L::plus(one, Scalar::zero()).at_most(L::plus(one, p)));
    assert(L::plus(one, p).at_most(L::plus(one, q)));
    assert(Scalar::zero().below(L::plus(one, p)));
    assert(L::over(one, L::plus(one, q)).at_most(L::over(one, L::plus(one, p))));
}

/// With adaptive consolidation, a layer with a larger smoothed prediction error learns no less
/// than one with a smaller, where the steepness is not negative and arithmetic keeps the order.
pub proof fn surprised_layers_learn_more<L: LinAlg>(agent: PcActorCritic<L>, i: int, j: int)
    requires
        keeps_order::<L>(),
        keeps_order_further::<L>(),
        agent.config.adaptive_consolidation,
        Scalar::zero().at_most(agent.config.consolidation_sigmoid_k),
        agent.config.consolidation_sigmoid_k.finite(),
        agent.config.consolidation_error_threshold.finite(),
        0 <= i < agent.layer_error_ema@.len(),
        0 <= j < agent.layer_error_ema@.len(),
        agent.layer_error_ema@[i].at_most(agent.layer_error_ema@[j]),
        L::minus(
            agent.layer_error_ema@[i],
            agent.config.consolidation_error_threshold,
        ).finite(),
        L::minus(
            agent.layer_error_ema@[j],
            agent.config.consolidation_error_threshold,
        ).finite(),
    ensures
        agent.actor_decay().len() == agent.layer_error_ema@.len(),
        agent.actor_decay()[i].at_most(agent.actor_decay()[j]),
{
    let c = agent.config;
    let a = L::minus(agent.layer_error_ema@[i], c.consolidation_error_threshold);
    let b = L::minus(agent.layer_error_ema@[j], c.consolidation_error_threshold);
    assert(a.at_most(b));
    let k = c.consolidation_sigmoid_k.negated();
    assert(k.at_most(Scalar::zero()) && k.finite());
    assert(L::times(k, b).at_most(L::times(k, a)));
    sigmoid_is_ordered::<L>(L::times(k, a), L::times(k, b));
}

/// What counts of a prediction error is how far it exceeds the threshold: with both moved alike, a
/// layer learns as before.
pub proof fn decay_goes_by_the_excess<L: LinAlg>(
    a: PcActorCritic<L>,
    b: PcActorCritic<L>,
    i: int,
)
    requires
        a.config.adaptive_consolidation,
        b.config.adaptive_consolidation,
        a.config.consolidation_sigmoid_k == b.config.consolidation_sigmoid_k,
        0 <= i < a.layer_error_ema@.len(),
        a.layer_error_ema@.len() == b.layer_error_ema@.len(),
        L::minus(a.layer_error_ema@[i], a.config.consolidation_error_threshold) == L::minus(
            b.layer_error_ema@[i],
            b.config.consolidation_error_threshold,
        ),
    ensures
        a.actor_decay()[i] == b.actor_decay()[i],
{
}

/// With ten samples and more the thresholds lie around the recent average: half a spread below,
/// but not below zero, and one and a half above.
pub proof fn thresholds_lie_around_the_average<L: LinAlg>(
    rd: Reading,
    config: PcActorCriticConfig,
    history: Seq<Scalar>,
    bound: real,
)
    requires
        reads::<L>(rd),
        reads_order(rd),
        rd.of(Scalar { bits: HALF_BITS }) == (1 as real) / (2 as real),
        rd.of(Scalar { bits: THREE_HALVES_BITS }) == (3 as real) / (2 as real),
        config.adaptive_surprise,
        history.len() >= 10,
        mean::<L>(history).finite(),
        deviation::<L>(history).finite(),
        sized(rd.of(mean::<L>(history)), bound),
        sized(rd.of(deviation::<L>(history)), bound),
        bound >= 0 as real,
        bound + bound + bound + rd.slack <= rd.top,
    ensures
        ({
            let (low, high) = thresholds::<L>(config, history);
            let center = rd.of(mean::<L>(history));
            let spread = rd.of(deviation::<L>(history));
            let off = rd.slack + rd.slack;
            &&& rd.shows(high, center + (3 as real) / (2 as real) * spread, off)
            &&& low.finite()
            &&& rd.of(low) >= 0 as real
            &&& rd.of(low) >= center - spread / (2 as real) - off
            &&& rd.of(low) <= center - spread / (2 as real) + off || rd.of(low) == 0 as real
        }),
{
    let m = rd.of(mean::<L>(history));
    let w = rd.of(deviation::<L>(history));
    let half = Scalar { bits: HALF_BITS };
    let more = Scalar { bits: THREE_HALVES_BITS };
    assert(half.finite() && more.finite());
    assert(rd.of(half) * w == w / (2 as real)) by (nonlinear_arith)
        requires
            rd.of(half) == (1 as real) / (2 as real),
    ;
    let a = L::times(half, deviation::<L>(history));
    let b = L::times(more, deviation::<L>(history));
    assert(rd.shows(a, w / (2 as real), rd.slack));
    assert(rd.shows(b, (3 as real) / (2 as real) * w, rd.slack));
    let under = L::minus(mean::<L>(history), a);
    assert(rd.shows(under, m - rd.of(a), rd.slack));
    assert(under.below(Scalar::zero()) <==> rd.of(under) < 0 as real);
}

proof fn share_is_small(x: real, y: real, q: real, part: real, whole: real, s: real)
    requires
        y > 0 as real,
        q == x / y,
        near(x, part, s),
        near(y, whole, s),
        (0 as real) < part < whole,
        (4 as real) * s <= whole,
        s >= 0 as real,
    ensures
        q * y == x,
        sized(q, 2 as real),
{
    assert(q * y == x) by (nonlinear_arith)
        requires
            q == x / y,
            y > 0 as real,
    ;
    let up = (2 as real) * y;
    assert(x <= up && -up <= x);
    assert(q <= 2 as real) by (nonlinear_arith)
        requires
            q * y <= (2 as real) * y,
            y > 0 as real,
    ;
    assert(q >= -(2 as real)) by (nonlinear_arith)
        requires
            q * y >= -((2 as real) * y),
            y > 0 as real,
    ;
}

proof fn moved_factor(a: real, b: real, c: real, e: real, p: real)
    by (nonlinear_arith)
    requires
        near(a, b, e),
        sized(c, p),
        e >= 0 as real,
        p >= 0 as real,
    ensures
        near(c * a, c * b, p * e),
{
    let d = a - b;
    assert(sized(c * d, p * e));
    assert(c * a == c * b + c * d);
}

proof fn line_is_met(
    x: real,
    y: real,
    q: real,
    t: real,
    r: real,
    part: real,
    whole: real,
    height: real,
    s: real,
    bound: real,
)
    requires
        q * y == x,
        near(x, part, s),
        near(y, whole, s),
        near(t, q, s),
        sized(t, 3 as real),
        near(r, t * height, (5 as real) * s),
        y > 0 as real,
        (0 as real) < whole <= bound,
        sized(height, bound),
        0 as real <= s <= 1 as real,
        bound >= 1 as real,
    ensures
        near(r * whole, height * part, (11 as real) * (bound * (bound * s))),
{
    let m = bound * s;
    assert(s <= m) by (nonlinear_arith)
        requires
            m == bound * s,
            bound >= 1 as real,
            s >= 0 as real,
    ;
    moved_factor(whole, y, t, s, 3 as real);
    moved_factor(t, q, y, s, bound + s);
    assert(y * t == t * y && y * q == q * y) by (nonlinear_arith);
    assert((bound + s) * s <= m + s) by (nonlinear_arith)
        requires
            m == bound * s,
            0 as real <= s <= 1 as real,
    ;
    let tw = t * whole;
    let th = t * height;
    assert(near(tw, part, (6 as real) * m));
    moved_factor(r, th, whole, (5 as real) * s, bound);
    moved_factor(tw, part, height, (6 as real) * m, bound);
    assert(whole * (t * height) == height * (t * whole)) by (nonlinear_arith);
    assert(whole * th == height * tw);
    assert(whole * r == r * whole) by (nonlinear_arith);
    assert(bound * ((5 as real) * s) == (5 as real) * (bound * s)) by (nonlinear_arith);
    assert(bound * ((6 as real) * m) == (6 as real) * (bound * m)) by (nonlinear_arith);
    assert(m <= bound * m) by (nonlinear_arith)
        requires
            m >= 0 as real,
            bound >= 1 as real,
    ;
}

/// The point of the straight line from `floor` at `low` to `ceil` at `high` that lies at `x`.
spec fn line_value<L: LinAlg>(
    floor: Scalar,
    ceil: Scalar,
    low: Scalar,
    high: Scalar,
    x: Scalar,
) -> Scalar {
    L::plus(
        floor,
        L::times(L::over(L::minus(x, low), L::minus(high, low)), L::minus(ceil, floor)),
    )
}

proof fn line_value_reads<L: LinAlg>(
    rd: Reading,
    floor: Scalar,
    ceil: Scalar,
    low: Scalar,
    high: Scalar,
    sample: Scalar,
    bound: real,
)
    requires
        reads::<L>(rd),
        reads_quotients::<L>(rd),
        floor.finite(),
        ceil.finite(),
        low.finite(),
        high.finite(),
        sample.finite(),
        sized(rd.of(floor), bound),
        sized(rd.of(ceil) - rd.of(floor), bound),
        rd.of(low) < rd.of(sample) < rd.of(high),
        rd.of(high) - rd.of(low) <= bound,
        (4 as real) * rd.slack <= rd.of(high) - rd.of(low),
        rd.slack <= 1 as real,
        bound >= 1 as real,
        (8 as real) * bound <= rd.top,
    ensures
        line_value::<L>(floor, ceil, low, high, sample).finite(),
        near(
            (rd.of(line_value::<L>(floor, ceil, low, high, sample)) - rd.of(floor)) * (rd.of(high)
                - rd.of(low)),
            (rd.of(ceil) - rd.of(floor)) * (rd.of(sample) - rd.of(low)),
            (11 as real) * (bound * (bound * rd.slack)),
        ),
{
    let s = rd.slack;
    let height = rd.of(ceil) - rd.of(floor);
    let part = rd.of(sample) - rd.of(low);
    let whole = rd.of(high) - rd.of(low);
    let p = L::minus(sample, low);
    let d = L::minus(high, low);
    let k = L::minus(ceil, floor);
    assert(rd.shows(p, part, s));
    assert(rd.shows(d, whole, s));
    assert(rd.shows(k, height, s));
    let x = rd.of(p);
    let y = rd.of(d);
    let z = rd.of(k);
    let q = x / y;
    assert(y > 0 as real);
    share_is_small(x, y, q, part, whole, s);
    let share = L::over(p, d);
    assert(rd.shows(share, q, s));
    let t = rd.of(share);
    moved_factor(z, height, t, s, 3 as real);
    moved_factor(height, 0 as real, t, bound, 3 as real);
    assert(t * (0 as real) == 0 as real);
    let rise = L::times(share, k);
    assert(rd.shows(rise, t * z, s));
    assert(rd.shows(L::plus(floor, rise), rd.of(floor) + rd.of(rise), s));
    let r = rd.of(L::plus(floor, rise)) - rd.of(floor);
    line_is_met(x, y, q, t, r, part, whole, height, s, bound);
}

/// Between the thresholds the scale lies on the straight line from the floor at the lower one to
/// the ceiling at the upper one: its height over the floor is to the whole height as the sample's
/// distance from the lower threshold is to the whole distance.
pub proof fn scale_lies_on_the_line<L: LinAlg>(
    rd: Reading,
    config: PcActorCriticConfig,
    history: Seq<Scalar>,
    sample: Scalar,
    bound: real,
)
    requires
        reads::<L>(rd),
        reads_order(rd),
        reads_quotients::<L>(rd),
        sample.finite(),
        config.scale_floor.finite(),
        config.scale_ceil.finite(),
        sized(rd.of(config.scale_floor), bound),
        sized(rd.of(config.scale_ceil) - rd.of(config.scale_floor), bound),
        ({
            let (low, high) = thresholds::<L>(config, history);
            &&& low.finite() && high.finite()
            &&& rd.of(low) < rd.of(sample) < rd.of(high)
            &&& rd.of(high) - rd.of(low) <= bound
            &&& (4 as real) * rd.slack <= rd.of(high) - rd.of(low)
        }),
        rd.slack <= 1 as real,
        bound >= 1 as real,
        (8 as real) * bound <= rd.top,
    ensures
        ({
            let (low, high) = thresholds::<L>(config, history);
            let scale = learning_scale::<L>(config, history, sample);
            let floor = rd.of(config.scale_floor);
            &&& scale.finite()
            &&& near(
                (rd.of(scale) - floor) * (rd.of(high) - rd.of(low)),
                (rd.of(config.scale_ceil) - floor) * (rd.of(sample) - rd.of(low)),
                (11 as real) * (bound * (bound * rd.slack)),
            )
        }),
{
    let (low, high) = thresholds::<L>(config, history);
    let floor = config.scale_floor;
    assert(low.below(sample) && sample.below(high));
    let scale = line_value::<L>(floor, config.scale_ceil, low, high, sample);
    assert(learning_scale::<L>(config, history, sample) == scale);
    line_value_reads::<L>(rd, floor, config.scale_ceil, low, high, sample, bound);
}

/// Each network's learning scale goes by its own history: the actor's not by past TD errors, the
/// critic's not by past surprise.
pub proof fn scales_go_by_their_own_history<L: LinAlg>(
    a: PcActorCritic<L>,
    b: PcActorCritic<L>,
    sample: Scalar,
    mode: LearnMode,
)
    requires
        a.config == b.config,
        a.actor_plasticity() == b.actor_plasticity(),
        a.critic_plasticity() == b.critic_plasticity(),
    ensures
        a.surprise_buffer@ == b.surprise_buffer@ ==> a.actor_scale_in(sample, mode)
            == b.actor_scale_in(sample, mode),
        a.td_error_buffer@ == b.td_error_buffer@ ==> a.critic_scale_in(sample, mode)
            == b.critic_scale_in(sample, mode),
{
}

/// A network that is frozen learns at one and the same scale whatever the sample, and one that is not
/// frozen learns, online, at the scale that the sample has among those before it.
pub proof fn frozen_networks_ignore_the_sample<L: LinAlg>(
    agent: PcActorCritic<L>,
    x: Scalar,
    y: Scalar,
    mode: LearnMode,
)
    ensures
        agent.actor_plasticity().is_frozen() ==> agent.actor_scale_in(x, mode)
            == agent.actor_scale_in(y, mode),
        agent.critic_plasticity().is_frozen() ==> agent.critic_scale_in(x, mode)
            == agent.critic_scale_in(y, mode),
        !agent.actor_plasticity().is_frozen() ==> agent.actor_scale_in(x, LearnMode::Online)
            == learning_scale::<L>(agent.config, agent.surprise_buffer@, x),
        !agent.critic_plasticity().is_frozen() ==> agent.critic_scale_in(x, LearnMode::Online)
            == learning_scale::<L>(agent.config, agent.td_error_buffer@, x),
{
}

} // verus!
