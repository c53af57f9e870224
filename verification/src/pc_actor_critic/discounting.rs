//! Discounted returns.

use vstd::prelude::*;

use crate::linalg::LinAlg;
use crate::reading::{
    near, powers_stay_small, product_shows, reads, real_pow, sized, sum_shows, Reading,
};
use crate::scalar::Scalar;

verus! {

/// The discount of the step after `n` steps, multiplied up one step at a time.
pub open spec fn discount<L: LinAlg>(gamma: Scalar, n: nat) -> Scalar
    decreases n,
{
    if n == 0 {
        Scalar::one()
    } else {
        L::times(discount::<L>(gamma, (n - 1) as nat), gamma)
    }
}

/// The discounted sum of rewards, added up from the first.
pub open spec fn n_step_return<L: LinAlg>(gamma: Scalar, rewards: Seq<Scalar>) -> Scalar
    decreases rewards.len(),
{
    if rewards.len() == 0 {
        Scalar::zero()
    } else {
        L::plus(
            n_step_return::<L>(gamma, rewards.drop_last()),
            L::times(discount::<L>(gamma, (rewards.len() - 1) as nat), rewards.last()),
        )
    }
}

/// The return from step `k` of a whole episode: the reward and the discounted return of the
/// next step. `after` is what follows the last step.
pub open spec fn return_from<L: LinAlg>(
    gamma: Scalar,
    rewards: Seq<Scalar>,
    after: Option<Scalar>,
    k: int,
) -> Scalar
    decreases rewards.len() - k,
{
    if k + 1 < rewards.len() {
        L::plus(rewards[k], L::times(gamma, return_from::<L>(gamma, rewards, after, k + 1)))
    } else {
        match after {
            Some(x) => L::plus(rewards[k], L::times(gamma, x)),
            None => rewards[k],
        }
    }
}

/// The return from every step of an episode.
pub open spec fn all_returns<L: LinAlg>(
    gamma: Scalar,
    rewards: Seq<Scalar>,
    after: Option<Scalar>,
) -> Seq<Scalar> {
    Seq::new(rewards.len(), |k: int| return_from::<L>(gamma, rewards, after, k))
}

/// The discounted sum of rewards.
pub fn compute_n_step_reward<L: LinAlg>(gamma: Scalar, rewards: &[Scalar]) -> (r: Scalar)
    ensures
        r == n_step_return::<L>(gamma, rewards@),
{
    let mut g = Scalar::zero();
    let mut power = Scalar::one();
    let mut i: usize = 0;
    while i < rewards.len()
        invariant
            i <= rewards@.len(),
            g == n_step_return::<L>(gamma, rewards@.take(i as int)),
            power == discount::<L>(gamma, i as nat),
        decreases rewards@.len() - i,
    {
        g = L::scalar_add(g, L::scalar_mul(power, rewards[i]));
        power = L::scalar_mul(power, gamma);
        proof {
            assert(rewards@.take(i + 1).drop_last() =~= rewards@.take(i as int));
            assert(discount::<L>(gamma, (i + 1) as nat) == L::times(
                discount::<L>(gamma, i as nat),
                gamma,
            ));
        }
        i = i + 1;
    }
    assert(rewards@.take(rewards@.len() as int) =~= rewards@);
    g
}

/// The return from every step of an episode.
pub fn compute_returns<L: LinAlg>(gamma: Scalar, rewards: &[Scalar], after: Option<Scalar>) -> (r:
    Vec<Scalar>)
    ensures
        r@ == all_returns::<L>(gamma, rewards@, after),
{
    let n: usize = rewards.len();
    let mut out: Vec<Scalar> = Vec::new();
    let mut i: usize = 0;
    while i < n
        invariant
            i <= n,
            out@.len() == i,
        decreases n - i,
    {
        out.push(Scalar::zero());
        i = i + 1;
    }
    let mut k: usize = n;
    while k > 0
        invariant
            k <= n,
            n == rewards@.len(),
            out@.len() == n,
            forall|j: int|
                k <= j < n ==> (#[trigger] out@[j]) == return_from::<L>(gamma, rewards@, after, j),
        decreases k,
    {
        let i: usize = k - 1;
        let x = if k < n {
            L::scalar_add(rewards[i], L::scalar_mul(gamma, out[k]))
        } else {
            match after {
                Some(x) => L::scalar_add(rewards[i], L::scalar_mul(gamma, x)),
                None => rewards[i],
            }
        };
        out.set(i, x);
        k = i;
    }
    assert(out@ =~= all_returns::<L>(gamma, rewards@, after));
    out
}

/// The sum of what lies ahead, each entry multiplied by `g` once for each entry before it.
pub open spec fn discounted_sum(g: real, xs: Seq<real>) -> real
    decreases xs.len(),
{
    if xs.len() == 0 {
        0 as real
    } else {
        discounted_sum(g, xs.drop_last()) + real_pow(g, (xs.len() - 1) as nat) * xs.last()
    }
}

/// The first entry stands on its own, and all that follows it is discounted once.
pub proof fn discounted_head(g: real, xs: Seq<real>)
    requires
        xs.len() > 0,
    ensures
        discounted_sum(g, xs) == xs[0] + g * discounted_sum(g, xs.drop_first()),
    decreases xs.len(),
{
    let front = xs.drop_last();
    if xs.len() == 1 {
        assert(discounted_sum(g, front) == 0 as real);
        assert(discounted_sum(g, xs.drop_first()) == 0 as real);
        assert(real_pow(g, 0) * xs.last() == xs.last()) by (nonlinear_arith)
            requires
                real_pow(g, 0) == 1 as real,
        ;
        assert(g * (0 as real) == 0 as real) by (nonlinear_arith);
    } else {
        discounted_head(g, front);
        let tail = xs.drop_first();
        assert(tail.drop_last() =~= front.drop_first());
        let n = (xs.len() - 1) as nat;
        let p = real_pow(g, (n - 1) as nat);
        let s = discounted_sum(g, front.drop_first());
        let x = xs.last();
        assert(tail.last() == x);
        assert(real_pow(g, n) == g * p);
        assert((g * p) * x + g * s == g * (s + p * x)) by (nonlinear_arith);
    }
}

/// A discounted sum is no larger than as many entries of the largest size.
pub proof fn discounted_is_sized(g: real, xs: Seq<real>, bound: real)
    requires
        0 as real <= g <= 1 as real,
        bound >= 0 as real,
        forall|i: int| 0 <= i < xs.len() ==> sized(#[trigger] xs[i], bound),
    ensures
        sized(discounted_sum(g, xs), bound * (xs.len() as real)),
    decreases xs.len(),
{
    if xs.len() > 0 {
        let front = xs.drop_last();
        assert forall|i: int| 0 <= i < front.len() implies sized(#[trigger] front[i], bound) by {
            assert(sized(xs[i], bound));
        }
        discounted_is_sized(g, front, bound);
        let n = (xs.len() - 1) as nat;
        powers_stay_small(g, n);
        let p = real_pow(g, n);
        let x = xs.last();
        assert(sized(xs[xs.len() - 1], bound));
        assert(sized(p * x, bound)) by (nonlinear_arith)
            requires
                0 as real <= p <= 1 as real,
                sized(x, bound),
                bound >= 0 as real,
        ;
        let m = front.len() as real;
        assert(xs.len() as real == m + 1 as real);
        assert(bound * m + bound == bound * (m + 1 as real)) by (nonlinear_arith);
    } else {
        assert(bound * (0 as real) == 0 as real) by (nonlinear_arith);
    }
}

proof fn return_reads<L: LinAlg>(
    rd: Reading,
    gamma: Scalar,
    rewards: Seq<Scalar>,
    after: Option<Scalar>,
    k: int,
    bound: real,
    end: real,
)
    requires
        reads::<L>(rd),
        gamma.finite(),
        0 as real <= rd.of(gamma) <= 1 as real,
        rd.bounds(rewards, bound),
        bound >= 0 as real,
        after matches Some(x) ==> x.finite() && rd.of(x) == end && sized(end, bound),
        after is None ==> end == 0 as real,
        (bound + rd.slack + rd.slack) * ((rewards.len() + 1) as real) <= rd.top,
        0 <= k < rewards.len(),
    ensures
        rd.shows(
            return_from::<L>(gamma, rewards, after, k),
            discounted_sum(rd.of(gamma), rd.all(rewards.skip(k)).push(end)),
            (rd.slack + rd.slack) * ((rewards.len() - k) as real),
        ),
    decreases rewards.len() - k,
{
    let g = rd.of(gamma);
    let s = rd.slack;
    let xs = rd.all(rewards.skip(k)).push(end);
    let rest = xs.drop_first();
    let m = (rewards.len() - k) as real;
    let n = (rewards.len() + 1) as real;
    discounted_head(g, xs);
    assert(xs[0] == rd.of(rewards[k]));
    assert(rewards[k].finite());
    assert forall|i: int| 0 <= i < rest.len() implies sized(#[trigger] rest[i], bound) by {
        if i < rest.len() - 1 {
            assert(rest[i] == rd.of(rewards[k + 1 + i]));
            assert(sized(rd.of(rewards[k + 1 + i]), bound));
        }
    }
    discounted_is_sized(g, rest, bound);
    let t = discounted_sum(g, rest);
    assert(rest.len() as real == m);
    let e = (s + s) * (m - 1 as real);
    assert(e >= 0 as real && bound * m >= 0 as real && e <= (s + s) * m) by (nonlinear_arith)
        requires
            m >= 1 as real,
            s >= 0 as real,
            bound >= 0 as real,
            e == (s + s) * (m - 1 as real),
    ;
    assert((bound + s + s) * n >= bound + bound * m + (s + s) * m) by (nonlinear_arith)
        requires
            n >= m + 1 as real,
            s >= 0 as real,
            bound >= 0 as real,
    ;
    assert(e + s + s == (s + s) * m) by (nonlinear_arith)
        requires
            e == (s + s) * (m - 1 as real),
    ;
    assert(sized(xs[0], bound));
    if k + 1 < rewards.len() {
        return_reads::<L>(rd, gamma, rewards, after, k + 1, bound, end);
        assert(rd.all(rewards.skip(k + 1)).push(end) =~= rest);
        let tail = return_from::<L>(gamma, rewards, after, k + 1);
        assert((rewards.len() - (k + 1)) as real == m - 1 as real);
        discount_once::<L>(rd, gamma, tail, t, e, bound * m);
        let d = L::times(gamma, tail);
        assert(sized(g * t, bound * m));
        sum_shows::<L>(rd, rewards[k], d, xs[0], g * t, 0 as real, e + s);
    } else {
        assert(rest =~= seq![end]);
        discounted_head(g, rest);
        assert(rest.drop_first().len() == 0);
        assert(g * (0 as real) == 0 as real) by (nonlinear_arith);
        assert(t == end);
        match after {
            Some(x) => {
                assert(m == 1 as real);
                assert(e == 0 as real) by (nonlinear_arith)
                    requires
                        e == (s + s) * (m - 1 as real),
                        m == 1 as real,
                ;
                assert(bound * m == bound) by (nonlinear_arith)
                    requires
                        m == 1 as real,
                ;
                discount_once::<L>(rd, gamma, x, t, e, bound * m);
                sum_shows::<L>(rd, rewards[k], L::times(gamma, x), xs[0], g * t, 0 as real, e + s);
            },
            None => {
                assert(g * t == 0 as real) by (nonlinear_arith)
                    requires
                        t == 0 as real,
                ;
            },
        }
    }
}

proof fn discount_once<L: LinAlg>(rd: Reading, gamma: Scalar, x: Scalar, t: real, e: real, q: real)
    requires
        reads::<L>(rd),
        gamma.finite(),
        0 as real <= rd.of(gamma) <= 1 as real,
        rd.shows(x, t, e),
        sized(t, q),
        e >= 0 as real,
        q >= 0 as real,
        q + e <= rd.top,
    ensures
        rd.shows(L::times(gamma, x), rd.of(gamma) * t, e + rd.slack),
        sized(rd.of(gamma) * t, q),
{
    let g = rd.of(gamma);
    let y = rd.of(x);
    assert(near(g * y, g * t, e) && sized(g * t, q)) by (nonlinear_arith)
        requires
            near(y, t, e),
            sized(t, q),
            0 as real <= g <= 1 as real,
            e >= 0 as real,
            q >= 0 as real,
    ;
}

/// The return from a step is the sum of the rewards from there on, each discounted once for
/// every step that lies in between, and what follows the last step discounted likewise, up to
/// twice the slack for each step. With a discount of one it is the plain sum, with a discount of
/// zero the step's own reward.
pub proof fn returns_discount_what_lies_ahead<L: LinAlg>(
    rd: Reading,
    gamma: Scalar,
    rewards: Seq<Scalar>,
    after: Option<Scalar>,
    k: int,
    bound: real,
)
    requires
        reads::<L>(rd),
        gamma.finite(),
        0 as real <= rd.of(gamma) <= 1 as real,
        rd.bounds(rewards, bound),
        bound >= 0 as real,
        after matches Some(x) ==> x.finite() && sized(rd.of(x), bound),
        (bound + rd.slack + rd.slack) * ((rewards.len() + 1) as real) <= rd.top,
        0 <= k < rewards.len(),
    ensures
        all_returns::<L>(gamma, rewards, after).len() == rewards.len(),
        rd.shows(
            all_returns::<L>(gamma, rewards, after)[k],
            discounted_sum(rd.of(gamma), rd.all(rewards.skip(k))) + match after {
                Some(x) => real_pow(rd.of(gamma), (rewards.len() - k) as nat) * rd.of(x),
                None => 0 as real,
            },
            (rd.slack + rd.slack) * ((rewards.len() - k) as real),
        ),
{
    let end = match after {
        Some(x) => rd.of(x),
        None => 0 as real,
    };
    return_reads::<L>(rd, gamma, rewards, after, k, bound, end);
    let ahead = rd.all(rewards.skip(k));
    let xs = ahead.push(end);
    assert(xs.drop_last() =~= ahead);
    let p = real_pow(rd.of(gamma), (rewards.len() - k) as nat);
    assert(p * (0 as real) == 0 as real) by (nonlinear_arith);
}

proof fn discount_reads<L: LinAlg>(rd: Reading, gamma: Scalar, n: nat)
    requires
        reads::<L>(rd),
        gamma.finite(),
        0 as real <= rd.of(gamma) <= 1 as real,
        1 as real + rd.slack * (n as real) <= rd.top,
    ensures
        rd.shows(
            discount::<L>(gamma, n),
            real_pow(rd.of(gamma), n),
            rd.slack * (n as real),
        ),
    decreases n,
{
    let g = rd.of(gamma);
    let s = rd.slack;
    if n > 0 {
        let i = (n - 1) as nat;
        let m = i as real;
        assert(n as real == m + 1 as real);
        assert(s * (m + 1 as real) == s * m + s && s * m >= 0 as real) by (nonlinear_arith)
            requires
                m >= 0 as real,
                s >= 0 as real,
        ;
        discount_reads::<L>(rd, gamma, i);
        powers_stay_small(g, i);
        let d = discount::<L>(gamma, i);
        let p = real_pow(g, i);
        let y = rd.of(d);
        assert(near(y * g, g * p, s * m) && sized(g * p, 1 as real)) by (nonlinear_arith)
            requires
                near(y, p, s * m),
                0 as real <= p <= 1 as real,
                0 as real <= g <= 1 as real,
                s * m >= 0 as real,
        ;
    } else {
        assert(s * (0 as real) == 0 as real) by (nonlinear_arith);
    }
}

/// How far a return over several steps may be off.
pub open spec fn return_error(slack: real, bound: real, n: nat) -> real {
    (n as real) * ((n as real) * slack * bound + slack + slack)
}

/// A return over several steps is the sum of the rewards, each discounted once for every step
/// before it, up to rounding: in exact arithmetic the two are equal.
pub proof fn return_over_steps_is_the_discounted_sum<L: LinAlg>(
    rd: Reading,
    gamma: Scalar,
    rewards: Seq<Scalar>,
    bound: real,
)
    requires
        reads::<L>(rd),
        gamma.finite(),
        0 as real <= rd.of(gamma) <= 1 as real,
        rd.bounds(rewards, bound),
        bound >= 0 as real,
        bound * (rewards.len() as real) + return_error(rd.slack, bound, rewards.len()) <= rd.top,
        1 as real + rd.slack * (rewards.len() as real) <= rd.top,
        rewards.len() > 0 ==> bound + return_error(rd.slack, bound, rewards.len()) <= rd.top,
    ensures
        rd.shows(
            n_step_return::<L>(gamma, rewards),
            discounted_sum(rd.of(gamma), rd.all(rewards)),
            return_error(rd.slack, bound, rewards.len()),
        ),
    decreases rewards.len(),
{
    let g = rd.of(gamma);
    let s = rd.slack;
    if rewards.len() > 0 {
        let front = rewards.drop_last();
        let i = front.len();
        let m = i as real;
        let n = rewards.len() as real;
        assert(n == m + 1 as real);
        let e = return_error(s, bound, i);
        let f = m * s * bound + s;
        assert(e + f + s <= return_error(s, bound, rewards.len()) && e >= 0 as real && f
            >= 0 as real && m * s >= 0 as real && bound * m <= bound * n && s * m <= s * n
            && bound * n == bound * m + bound && m * s * bound + s <= return_error(
            s,
            bound,
            rewards.len(),
        )) by (nonlinear_arith)
            requires
                n == m + 1 as real,
                m >= 0 as real,
                s >= 0 as real,
                bound >= 0 as real,
                n == rewards.len() as real,
                m == i as real,
                e == m * (m * s * bound + s + s),
                f == m * s * bound + s,
                return_error(s, bound, rewards.len()) == n * (n * s * bound + s + s),
        ;
        assert forall|j: int| 0 <= j < front.len() implies (#[trigger] front[j]).finite() && sized(
            rd.of(front[j]),
            bound,
        ) by {
            assert(rewards[j].finite());
        }
        return_over_steps_is_the_discounted_sum::<L>(rd, gamma, front, bound);
        discount_reads::<L>(rd, gamma, i);
        powers_stay_small(g, i);
        let d = discount::<L>(gamma, i);
        let p = real_pow(g, i);
        let x = rewards.last();
        assert(rewards[rewards.len() - 1].finite());
        let r = rd.of(x);
        assert((s * m) * (bound + 0 as real) + (1 as real) * (0 as real) == m * s * bound)
            by (nonlinear_arith);
        assert((1 as real) * bound == bound) by (nonlinear_arith);
        product_shows::<L>(
            rd,
            d,
            x,
            p,
            r,
            s * m,
            0 as real,
            1 as real,
            bound,
        );
        let xs = rd.all(rewards);
        assert(xs.drop_last() =~= rd.all(front));
        let before = discounted_sum(g, rd.all(front));
        assert forall|j: int| 0 <= j < xs.len() implies sized(#[trigger] xs[j], bound) by {
            assert(rewards[j].finite());
        }
        discounted_is_sized(g, xs, bound);
        sum_shows::<L>(
            rd,
            n_step_return::<L>(gamma, front),
            L::times(d, x),
            before,
            p * r,
            e,
            f,
        );
    } else {
        assert(return_error(s, bound, 0) == 0 as real) by (nonlinear_arith)
            requires
                return_error(s, bound, 0) == (0 as real) * ((0 as real) * s * bound + s + s),
        ;
    }
}

} // verus!
