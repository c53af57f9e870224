//! The plasticity state machine of one network.

use vstd::prelude::*;

use crate::linalg::LinAlg;
use crate::pc_actor_critic::ewma::{EwmaTracker, PlasticityState};
use crate::reading::{product_shows, reads, reads_order, sized, Reading};
use crate::scalar::Scalar;

verus! {

/// A state machine driven by two moving averages of one signal.
///
/// Frozen turns plastic when the fast average rises above the slow one by
/// `wake_fraction`; plastic turns frozen when it falls below by `sleep_fraction`, once
/// `min_initial_plastic` samples have come in.
#[derive(Clone, Copy, Debug)]
pub struct HysteresisState {
    /// Fast average.
    pub fast: EwmaTracker,
    /// Slow average.
    pub slow: EwmaTracker,
    /// Current state.
    pub state: PlasticityState,
    /// How far above the slow average wakes.
    pub wake_fraction: Scalar,
    /// How far below the slow average freezes.
    pub sleep_fraction: Scalar,
    /// Samples before freezing is possible.
    pub min_initial_plastic: u64,
}

impl HysteresisState {
    /// Both averages after one more sample, the state as it was.
    pub open spec fn sampled<L: LinAlg>(self, signal: Scalar) -> HysteresisState {
        HysteresisState {
            fast: self.fast.after::<L>(signal),
            slow: self.slow.after::<L>(signal),
            ..self
        }
    }

    /// The fast average has risen far enough above the slow one.
    pub open spec fn wants_wake<L: LinAlg>(self) -> bool {
        L::times(self.slow.value, L::plus(Scalar::one(), self.wake_fraction)).below(self.fast.value)
    }

    /// The fast average has fallen far enough below the slow one, after warm-up.
    pub open spec fn wants_sleep<L: LinAlg>(self) -> bool {
        self.fast.k >= self.min_initial_plastic && self.fast.value.below(
            L::times(self.slow.value, L::minus(Scalar::one(), self.sleep_fraction)),
        )
    }

    /// The machine after one more sample.
    pub open spec fn after<L: LinAlg>(self, signal: Scalar) -> HysteresisState {
        let s = self.sampled::<L>(signal);
        HysteresisState {
            state: match self.state {
                PlasticityState::Frozen => if s.wants_wake::<L>() {
                    PlasticityState::Plastic
                } else {
                    PlasticityState::Frozen
                },
                PlasticityState::Plastic => if s.wants_sleep::<L>() {
                    PlasticityState::Frozen
                } else {
                    PlasticityState::Plastic
                },
            },
            ..s
        }
    }

    /// The machine after a run of samples.
    pub open spec fn after_all<L: LinAlg>(self, signals: Seq<Scalar>) -> HysteresisState
        decreases signals.len(),
    {
        if signals.len() == 0 {
            self
        } else {
            self.after_all::<L>(signals.drop_last()).after::<L>(signals.last())
        }
    }

    /// The machine forced awake, its warm-up started over.
    pub open spec fn forced_awake(self) -> HysteresisState {
        HysteresisState {
            state: PlasticityState::Plastic,
            fast: EwmaTracker { k: 0, ..self.fast },
            slow: EwmaTracker { k: 0, ..self.slow },
            ..self
        }
    }

    /// There is room to count one more sample.
    pub open spec fn can_count(self) -> bool {
        self.fast.k < u64::MAX && self.slow.k < u64::MAX
    }

    /// Takes one sample of the signal; returns the new state where it changed.
    pub fn update<L: LinAlg>(&mut self, signal: Scalar) -> (r: Option<PlasticityState>)
        requires
            signal.finite() ==> old(self).can_count(),
        ensures
            *final(self) == old(self).after::<L>(signal),
            r == (if final(self).state == old(self).state {
                None
            } else {
                Some(final(self).state)
            }),
    {
        let _ = self.fast.update::<L>(signal);
        let _ = self.slow.update::<L>(signal);
        match self.state {
            PlasticityState::Frozen => {
                let bar = L::scalar_mul(
                    self.slow.value,
                    L::scalar_add(Scalar::one(), self.wake_fraction),
                );
                if bar.lt(self.fast.value) {
                    self.state = PlasticityState::Plastic;
                    return Some(PlasticityState::Plastic);
                }
            },
            PlasticityState::Plastic => {
                let bar = L::scalar_mul(
                    self.slow.value,
                    L::scalar_sub(Scalar::one(), self.sleep_fraction),
                );
                if self.fast.k >= self.min_initial_plastic && self.fast.value.lt(bar) {
                    self.state = PlasticityState::Frozen;
                    return Some(PlasticityState::Frozen);
                }
            },
        }
        None
    }

    /// Forces the machine awake and starts its warm-up over.
    pub fn force_awake(&mut self)
        ensures
            *final(self) == old(self).forced_awake(),
    {
        self.state = PlasticityState::Plastic;
        self.fast.k = 0;
        self.slow.k = 0;
    }
}

/// A plastic network cannot freeze while its warm-up lasts: starting from `k` samples,
/// fewer than `min_initial_plastic - k` further samples keep it plastic, whatever they are.
pub proof fn warmup_prevents_freezing<L: LinAlg>(h: HysteresisState, signals: Seq<Scalar>)
    requires
        h.state == PlasticityState::Plastic,
        h.fast.k + signals.len() < h.min_initial_plastic,
    ensures
        h.after_all::<L>(signals).state == PlasticityState::Plastic,
        h.after_all::<L>(signals).fast.k <= h.fast.k + signals.len(),
        h.after_all::<L>(signals).min_initial_plastic == h.min_initial_plastic,
    decreases signals.len(),
{
    if signals.len() > 0 {
        warmup_prevents_freezing::<L>(h, signals.drop_last());
    }
}

/// A network that was forced awake stays plastic for the next `min_initial_plastic - 1`
/// samples at least.
pub proof fn forced_wake_is_not_undone_at_once<L: LinAlg>(h: HysteresisState, signals: Seq<Scalar>)
    requires
        signals.len() < h.min_initial_plastic,
    ensures
        h.forced_awake().after_all::<L>(signals).state == PlasticityState::Plastic,
{
    warmup_prevents_freezing::<L>(h.forced_awake(), signals);
}

/// Samples that are not finite change neither average.
pub proof fn non_finite_signal_keeps_averages<L: LinAlg>(h: HysteresisState, signal: Scalar)
    requires
        !signal.finite(),
    ensures
        h.after::<L>(signal).fast == h.fast,
        h.after::<L>(signal).slow == h.slow,
{
}

/// A frozen network wakes when the fast average has come to lie above the slow one by more than
/// the wake fraction of it, and not as long as it lies below that, wherever the two are not closer
/// to it than rounding can tell.
pub proof fn wakes_above_the_slow_average<L: LinAlg>(
    rd: Reading,
    h: HysteresisState,
    signal: Scalar,
    bound: real,
)
    requires
        reads::<L>(rd),
        reads_order(rd),
        h.state == PlasticityState::Frozen,
        ({
            let s = h.after::<L>(signal);
            &&& s.fast.value.finite() && s.slow.value.finite()
            &&& sized(rd.of(s.slow.value), bound)
        }),
        h.wake_fraction.finite(),
        sized(rd.of(h.wake_fraction), 1 as real),
        bound >= 0 as real,
        2 as real <= rd.top,
        bound + bound + bound * rd.slack <= rd.top,
    ensures
        ({
            let s = h.after::<L>(signal);
            let slow = rd.of(s.slow.value);
            let above = rd.of(s.fast.value) - slow;
            let bar = slow * rd.of(h.wake_fraction);
            let off = bound * rd.slack + rd.slack;
            &&& above > bar + off ==> s.state == PlasticityState::Plastic
            &&& above < bar - off ==> s.state == PlasticityState::Frozen
        }),
{
    let s = h.after::<L>(signal);
    let slow = rd.of(s.slow.value);
    let w = rd.of(h.wake_fraction);
    let k = rd.slack;
    let f = L::plus(Scalar::one(), h.wake_fraction);
    assert(rd.shows(f, 1 as real + w, k));
    assert((0 as real) * (2 as real + k) + bound * k == bound * k && bound * (2 as real) == bound
        + bound) by (nonlinear_arith);
    product_shows::<L>(
        rd,
        s.slow.value,
        f,
        slow,
        1 as real + w,
        0 as real,
        k,
        bound,
        2 as real,
    );
    assert(slow * (1 as real + w) == slow + slow * w) by (nonlinear_arith);
}

/// A plastic network past its warm-up freezes when the fast average has come to lie below the slow
/// one by more than the sleep fraction of it, and not as long as it lies above that, wherever the
/// two are not closer to it than rounding can tell. Before that it never freezes.
pub proof fn sleeps_below_the_slow_average<L: LinAlg>(
    rd: Reading,
    h: HysteresisState,
    signal: Scalar,
    bound: real,
)
    requires
        reads::<L>(rd),
        reads_order(rd),
        h.state == PlasticityState::Plastic,
        ({
            let s = h.after::<L>(signal);
            &&& s.fast.value.finite() && s.slow.value.finite()
            &&& sized(rd.of(s.slow.value), bound)
        }),
        h.sleep_fraction.finite(),
        sized(rd.of(h.sleep_fraction), 1 as real),
        h.fast.k < u64::MAX,
        bound >= 0 as real,
        2 as real <= rd.top,
        bound + bound + bound * rd.slack <= rd.top,
    ensures
        ({
            let s = h.after::<L>(signal);
            let slow = rd.of(s.slow.value);
            let below = slow - rd.of(s.fast.value);
            let bar = slow * rd.of(h.sleep_fraction);
            let off = bound * rd.slack + rd.slack;
            let samples = if signal.finite() {
                h.fast.k + 1
            } else {
                h.fast.k as int
            };
            &&& samples >= h.min_initial_plastic && below > bar + off ==> s.state
                == PlasticityState::Frozen
            &&& below < bar - off ==> s.state == PlasticityState::Plastic
            &&& samples < h.min_initial_plastic ==> s.state == PlasticityState::Plastic
        }),
{
    let s = h.after::<L>(signal);
    let slow = rd.of(s.slow.value);
    let w = rd.of(h.sleep_fraction);
    let k = rd.slack;
    let f = L::minus(Scalar::one(), h.sleep_fraction);
    assert(rd.shows(f, 1 as real - w, k));
    assert((0 as real) * (2 as real + k) + bound * k == bound * k && bound * (2 as real) == bound
        + bound) by (nonlinear_arith);
    product_shows::<L>(
        rd,
        s.slow.value,
        f,
        slow,
        1 as real - w,
        0 as real,
        k,
        bound,
        2 as real,
    );
    assert(slow * (1 as real - w) == slow - slow * w) by (nonlinear_arith);
}

} // verus!
