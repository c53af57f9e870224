//! Moving averages with warm-up, and the two plasticity states of a network.

use vstd::prelude::*;

use crate::linalg::LinAlg;
use crate::reading::{near, reads, reads_quotients, sized, Reading};
use crate::scalar::Scalar;

verus! {

/// Whether a network is learning.
#[derive(Clone, Copy, Debug, PartialEq, Eq, Structural)]
pub enum PlasticityState {
    /// Weights are held.
    Frozen,
    /// Weights are learning.
    Plastic,
}

impl Default for PlasticityState {
    fn default() -> (r: Self)
        ensures
            r == PlasticityState::Plastic,
    {
        PlasticityState::Plastic
    }
}

/// A moving average: an arithmetic mean until `window` samples have come in, and an
/// exponential average with weight `1 / window` from there on.
#[derive(Clone, Copy, Debug)]
pub struct EwmaTracker {
    /// Current average.
    pub value: Scalar,
    /// Samples taken.
    pub k: u64,
    /// Length of the warm-up.
    pub window: usize,
}

impl EwmaTracker {
    /// What a sample is divided by: the number of samples, at most the window.
    pub open spec fn divisor(self) -> nat {
        if self.window <= self.k {
            self.window as nat
        } else {
            self.k as nat
        }
    }

    /// The tracker after one sample; anything that is not finite is ignored.
    pub open spec fn after<L: LinAlg>(self, val: Scalar) -> EwmaTracker {
        if !val.finite() {
            self
        } else {
            let counted = EwmaTracker { k: (self.k + 1) as u64, ..self };
            EwmaTracker {
                value: L::plus(
                    self.value,
                    L::over(L::minus(val, self.value), L::count(counted.divisor())),
                ),
                ..counted
            }
        }
    }

    /// A tracker that has seen nothing.
    pub fn new(window: usize) -> (r: Self)
        ensures
            r == (EwmaTracker { value: Scalar::zero(), k: 0, window }),
    {
        EwmaTracker { value: Scalar::zero(), k: 0, window }
    }

    /// Takes one sample and returns the new average.
    pub fn update<L: LinAlg>(&mut self, val: Scalar) -> (r: Scalar)
        requires
            val.finite() ==> old(self).k < u64::MAX,
        ensures
            *final(self) == old(self).after::<L>(val),
            r == final(self).value,
    {
        if !val.is_finite() {
            return self.value;
        }
        self.k = self.k + 1;
        let divisor: u64 = if self.window as u64 <= self.k {
            self.window as u64
        } else {
            self.k
        };
        let delta = L::scalar_div(L::scalar_sub(val, self.value), L::scalar_from_count(divisor));
        self.value = L::scalar_add(self.value, delta);
        self.value
    }
}

/// Samples that are not finite leave a tracker as it was, however many come in a row.
pub proof fn non_finite_samples_are_ignored<L: LinAlg>(t: EwmaTracker, a: Scalar, b: Scalar)
    requires
        !a.finite(),
    ensures
        t.after::<L>(a) == t,
        t.after::<L>(a).after::<L>(b) == t.after::<L>(b),
{
}

impl EwmaTracker {
    /// The tracker after samples that came in one after the other.
    pub open spec fn after_all<L: LinAlg>(self, samples: Seq<Scalar>) -> EwmaTracker
        decreases samples.len(),
    {
        if samples.len() == 0 {
            self
        } else {
            self.after_all::<L>(samples.drop_last()).after::<L>(samples.last())
        }
    }
}

/// The finite ones among samples, in their order.
pub open spec fn finite_ones(samples: Seq<Scalar>) -> Seq<Scalar>
    decreases samples.len(),
{
    if samples.len() == 0 {
        Seq::empty()
    } else if samples.last().finite() {
        finite_ones(samples.drop_last()).push(samples.last())
    } else {
        finite_ones(samples.drop_last())
    }
}

/// The mean of samples as it runs: each moves the mean of those before it by its share.
pub open spec fn running_mean<L: LinAlg>(samples: Seq<Scalar>) -> Scalar
    decreases samples.len(),
{
    if samples.len() == 0 {
        Scalar::zero()
    } else {
        let mean = running_mean::<L>(samples.drop_last());
        L::plus(mean, L::over(L::minus(samples.last(), mean), L::count(samples.len())))
    }
}

/// As long as no more finite samples have come in than the window is long, a tracker has counted
/// them all and holds their running mean, whatever else came in between.
pub proof fn warm_up_holds_the_mean<L: LinAlg>(window: usize, samples: Seq<Scalar>)
    requires
        finite_ones(samples).len() <= window,
    ensures
        (EwmaTracker { value: Scalar::zero(), k: 0, window }).after_all::<L>(samples) == (
        EwmaTracker {
            value: running_mean::<L>(finite_ones(samples)),
            k: finite_ones(samples).len() as u64,
            window,
        }),
    decreases samples.len(),
{
    if samples.len() > 0 {
        let earlier = samples.drop_last();
        warm_up_holds_the_mean::<L>(window, earlier);
        if samples.last().finite() {
            assert(finite_ones(samples).drop_last() =~= finite_ones(earlier));
        }
    }
}

/// The sum of what numbers mean.
pub open spec fn meant_sum(meaning: spec_fn(Scalar) -> real, samples: Seq<Scalar>) -> real
    decreases samples.len(),
{
    if samples.len() == 0 {
        0 as real
    } else {
        meant_sum(meaning, samples.drop_last()) + meaning(samples.last())
    }
}

/// Moving the mean of the samples before by the last one's share is off by at most `slack`.
pub open spec fn nearly_exact<L: LinAlg>(
    meaning: spec_fn(Scalar) -> real,
    samples: Seq<Scalar>,
    slack: real,
) -> bool {
    let mean = meaning(running_mean::<L>(samples.drop_last()));
    let exact = mean + (meaning(samples.last()) - mean) / (samples.len() as real);
    let moved = meaning(running_mean::<L>(samples));
    exact - slack <= moved <= exact + slack
}

proof fn mean_moved(mean: real, x: real, moved: real, slack: real, total: real, off: real, n: real)
    by (nonlinear_arith)
    requires
        n >= 1 as real,
        mean + (x - mean) / n - slack <= moved <= mean + (x - mean) / n + slack,
        total - off <= mean * (n - 1 as real) <= total + off,
    ensures
        total + x - (off + slack * n) <= moved * n <= total + x + (off + slack * n),
{
    let share = (x - mean) / n;
    assert(share * n == x - mean);
    assert((mean + share - slack) * n <= moved * n);
    assert(moved * n <= (mean + share + slack) * n);
}

/// The running mean is the sum of the samples over their number, up to rounding: where no update
/// is off by more than `slack`, mean times number is off the sum by at most `slack` times
/// `1 + 2 + ... + n`. In exact arithmetic the two are equal.
pub proof fn running_mean_is_the_mean<L: LinAlg>(
    meaning: spec_fn(Scalar) -> real,
    samples: Seq<Scalar>,
    slack: real,
)
    requires
        meaning(Scalar::zero()) == 0 as real,
        forall|n: int|
            1 <= n <= samples.len() ==> nearly_exact::<L>(
                meaning,
                #[trigger] samples.take(n),
                slack,
            ),
    ensures
        ({
            let n = samples.len() as real;
            let total = meant_sum(meaning, samples);
            let off = slack * (n * (n + 1 as real) / (2 as real));
            let mean = meaning(running_mean::<L>(samples));
            total - off <= mean * n <= total + off
        }),
    decreases samples.len(),
{
    let n = samples.len() as real;
    if samples.len() > 0 {
        let earlier = samples.drop_last();
        assert forall|k: int| 1 <= k <= earlier.len() implies nearly_exact::<L>(
            meaning,
            #[trigger] earlier.take(k),
            slack,
        ) by {
            assert(earlier.take(k) =~= samples.take(k));
        }
        running_mean_is_the_mean::<L>(meaning, earlier, slack);
        assert(samples.take(samples.len() as int) =~= samples);
        assert(earlier.len() as real == n - 1 as real);
        let before = slack * ((n - 1 as real) * n / (2 as real));
        mean_moved(
            meaning(running_mean::<L>(earlier)),
            meaning(samples.last()),
            meaning(running_mean::<L>(samples)),
            slack,
            meant_sum(meaning, earlier),
            before,
            n,
        );
        assert(before + slack * n == slack * (n * (n + 1 as real) / (2 as real)))
            by (nonlinear_arith)
            requires
                before == slack * ((n - 1 as real) * n / (2 as real)),
        ;
    } else {
        assert(n == 0 as real);
        assert(slack * (n * (n + 1 as real) / (2 as real)) == 0 as real) by (nonlinear_arith)
            requires
                n == 0 as real,
        ;
        assert(meaning(running_mean::<L>(samples)) * n == 0 as real) by (nonlinear_arith)
            requires
                n == 0 as real,
        ;
    }
}

/// How many samples share the average when the next one comes in: all so far, and no more than the
/// window.
pub open spec fn taking_part(t: EwmaTracker) -> real {
    if t.window as int <= t.k + 1 {
        t.window as int as real
    } else {
        (t.k + 1) as real
    }
}

/// A sample moves the average toward itself by one part in as many as have come in, and in no
/// more than the window: times that number, the move is the distance of the sample.
pub proof fn sample_moves_the_average_by_its_share<L: LinAlg>(
    rd: Reading,
    t: EwmaTracker,
    val: Scalar,
    bound: real,
)
    requires
        reads::<L>(rd),
        reads_quotients::<L>(rd),
        val.finite(),
        t.value.finite(),
        t.window > 0,
        t.k < u64::MAX,
        sized(rd.of(val), bound),
        sized(rd.of(t.value), bound),
        bound + bound + bound + rd.slack + rd.slack <= rd.top,
        taking_part(t) <= rd.top,
    ensures
        ({
            let n = taking_part(t);
            let after = t.after::<L>(val);
            &&& after.value.finite()
            &&& near(
                (rd.of(after.value) - rd.of(t.value)) * n,
                rd.of(val) - rd.of(t.value),
                rd.slack + (rd.slack + rd.slack) * n,
            )
        }),
{
    let after = t.after::<L>(val);
    let m = if t.window as int <= t.k + 1 {
        t.window as nat
    } else {
        (t.k + 1) as nat
    };
    let n = m as real;
    let s = rd.slack;
    let c = L::count(m);
    assert(c.finite() && rd.of(c) == n);
    let d = L::minus(val, t.value);
    let x = rd.of(d);
    let v = rd.of(t.value);
    let q = x / n;
    assert(n >= 1 as real);
    assert(q * n == x && sized(q, bound + bound + s)) by (nonlinear_arith)
        requires
            q == x / n,
            n >= 1 as real,
            sized(x, bound + bound + s),
    {
        assert(q * n == x);
        assert(q <= bound + bound + s);
        assert(q >= -(bound + bound + s));
    }
    let o = L::over(d, c);
    assert(rd.shows(o, q, s));
    let w = rd.of(after.value);
    assert(near(w, v + rd.of(o), s));
    assert(near((w - v) * n, q * n, (s + s) * n)) by (nonlinear_arith)
        requires
            near(w - v, q, s + s),
            n >= 1 as real,
    ;
}

} // verus!
