//! Gradients on the actor's output: policy gradient, eligibility trace and the pull toward
//! another policy.

use vstd::prelude::*;

use crate::elementwise::clip;
use crate::linalg::{zero_seq, LinAlg};
use crate::numeric::{log_sum_exp, lse, sum, total, total_is_the_sum, zero_list};
use crate::reading::{
    difference_shows, near, product_shows, products_near, reads, reads_order, reads_quotients,
    real_sum, sized, sum_shows, Reading,
};
use crate::scalar::{clamped_is_within, Scalar};

verus! {

/// Least probability that a logarithm is taken of: `1e-10`.
pub const MIN_PROBABILITY_BITS: u64 = 0x3ddb_7cdf_d9d7_bdbb;

/// Every listed action is one of `n`.
pub open spec fn all_below(valid: Seq<usize>, n: nat) -> bool {
    forall|k: int| 0 <= k < valid.len() ==> (#[trigger] valid[k]) < n
}

/// Logits divided by the temperature.
pub open spec fn tempered<L: LinAlg>(logits: Seq<Scalar>, temperature: Scalar) -> Seq<Scalar> {
    Seq::new(logits.len(), |i: int| L::over(logits[i], temperature))
}

/// Logits turned round and divided by the temperature.
pub open spec fn reversed<L: LinAlg>(logits: Seq<Scalar>, temperature: Scalar) -> Seq<Scalar> {
    Seq::new(logits.len(), |i: int| L::over(logits[i].negated(), temperature))
}

/// One entry lowered by one.
pub open spec fn one_less<L: LinAlg>(d: Seq<Scalar>, action: int) -> Seq<Scalar> {
    d.update(action, L::minus(d[action], Scalar::one()))
}

/// The gradient of the chosen action's log-probability, turned round: probabilities of the
/// open actions, zero elsewhere, less one at the action.
pub open spec fn direction<L: LinAlg>(
    pi: Seq<Scalar>,
    valid: Seq<usize>,
    action: usize,
) -> Seq<Scalar> {
    one_less::<L>(
        Seq::new(
            pi.len(),
            |i: int|
                if exists|k: int| 0 <= k < valid.len() && valid[k] == i {
                    pi[i]
                } else {
                    Scalar::zero()
                },
        ),
        action as int,
    )
}

/// The entries of the listed actions multiplied by `k`, once for each listing.
pub open spec fn weighted<L: LinAlg>(d: Seq<Scalar>, valid: Seq<usize>, k: Scalar) -> Seq<Scalar>
    decreases valid.len(),
{
    if valid.len() == 0 {
        d
    } else {
        let p = weighted::<L>(d, valid.drop_last(), k);
        p.update(valid.last() as int, L::times(p[valid.last() as int], k))
    }
}

/// The entropy gradient of an action with probability `p`.
pub open spec fn entropy_slope<L: LinAlg>(p: Scalar) -> Scalar {
    L::plus(L::logarithm(p.larger(Scalar { bits: MIN_PROBABILITY_BITS })), Scalar::one())
}

/// The entries of the listed actions lowered by the entropy gradient, once for each listing.
pub open spec fn spread_out<L: LinAlg>(
    d: Seq<Scalar>,
    pi: Seq<Scalar>,
    valid: Seq<usize>,
    coeff: Scalar,
) -> Seq<Scalar>
    decreases valid.len(),
{
    if valid.len() == 0 {
        d
    } else {
        let p = spread_out::<L>(d, pi, valid.drop_last(), coeff);
        let a = valid.last() as int;
        p.update(a, L::minus(p[a], L::times(coeff, entropy_slope::<L>(pi[a]))))
    }
}

/// The eligibility trace after a step: decayed, the step's direction added, within the clip.
pub open spec fn traced<L: LinAlg>(
    trace: Seq<Scalar>,
    decay: Scalar,
    step: Seq<Scalar>,
) -> Seq<Scalar> {
    Seq::new(
        trace.len(),
        |i: int|
            L::plus(L::times(trace[i], decay), step[i]).clamped(clip().negated(), clip()),
    )
}

/// Every entry multiplied from the left by `k`.
pub open spec fn multiplied<L: LinAlg>(k: Scalar, d: Seq<Scalar>) -> Seq<Scalar> {
    Seq::new(d.len(), |i: int| L::times(k, d[i]))
}

/// Entries with a share of others added.
pub open spec fn nudged<L: LinAlg>(
    d: Seq<Scalar>,
    strength: Scalar,
    g: Seq<Scalar>,
) -> Seq<Scalar> {
    Seq::new(d.len(), |i: int| L::plus(d[i], L::times(strength, g[i])))
}

/// The logits of the listed actions divided by the temperature, in the order of the list.
pub open spec fn picked<L: LinAlg>(
    logits: Seq<Scalar>,
    valid: Seq<usize>,
    temperature: Scalar,
) -> Seq<Scalar> {
    Seq::new(valid.len(), |k: int| L::over(logits[valid[k] as int], temperature))
}

/// Log-probabilities of logits.
pub open spec fn log_policy<L: LinAlg>(x: Seq<Scalar>) -> Seq<Scalar> {
    Seq::new(x.len(), |k: int| L::minus(x[k], log_sum_exp::<L>(x)))
}

/// The divergence of one policy from another, both given by log-probabilities.
pub open spec fn divergence<L: LinAlg>(lp: Seq<Scalar>, lq: Seq<Scalar>) -> Scalar {
    total::<L>(
        Seq::new(lp.len(), |k: int| L::times(L::exponential(lp[k]), L::minus(lp[k], lq[k]))),
    )
}

/// The gradient of the divergence, action by action.
pub open spec fn divergence_slope<L: LinAlg>(lp: Seq<Scalar>, lq: Seq<Scalar>) -> Seq<Scalar> {
    Seq::new(
        lp.len(),
        |k: int|
            L::times(
                L::exponential(lp[k]),
                L::minus(L::minus(lp[k], lq[k]), divergence::<L>(lp, lq)),
            ),
    )
}

/// Numbers put at the listed positions among `n` zeros; the last listing of a position wins.
pub open spec fn scattered(n: nat, valid: Seq<usize>, g: Seq<Scalar>) -> Seq<Scalar>
    decreases valid.len(),
{
    if valid.len() == 0 {
        zero_seq(n)
    } else {
        scattered(n, valid.drop_last(), g).update(valid.last() as int, g[valid.len() - 1])
    }
}

/// Every number is finite.
pub open spec fn all_finite(s: Seq<Scalar>) -> bool {
    forall|i: int| 0 <= i < s.len() ==> (#[trigger] s[i]).finite()
}

/// The gradient of the divergence from a target policy over all actions; zero altogether
/// where any part of it is not finite.
pub open spec fn kl_gradient<L: LinAlg>(
    live: Seq<Scalar>,
    target: Seq<Scalar>,
    valid: Seq<usize>,
    temperature: Scalar,
) -> Seq<Scalar> {
    let g = scattered(
        live.len(),
        valid,
        divergence_slope::<L>(
            log_policy::<L>(picked::<L>(live, valid, temperature)),
            log_policy::<L>(picked::<L>(target, valid, temperature)),
        ),
    );
    if all_finite(g) {
        g
    } else {
        zero_seq(live.len())
    }
}

/// Logits divided by the temperature.
pub fn temper<L: LinAlg>(logits: &[Scalar], temperature: Scalar) -> (r: Vec<Scalar>)
    ensures
        r@ == tempered::<L>(logits@, temperature),
{
    let mut out: Vec<Scalar> = Vec::new();
    let mut i: usize = 0;
    while i < logits.len()
        invariant
            i <= logits@.len(),
            out@.len() == i,
            forall|j: int| 0 <= j < i ==> out@[j] == L::over(logits@[j], temperature),
        decreases logits@.len() - i,
    {
        out.push(L::scalar_div(logits[i], temperature));
        i = i + 1;
    }
    assert(out@ =~= tempered::<L>(logits@, temperature));
    out
}

/// Probabilities of the open actions.
pub fn probabilities<L: LinAlg>(
    backend: &L,
    logits: &[Scalar],
    valid: &[usize],
    temperature: Scalar,
) -> (r: Vec<Scalar>)
    requires
        all_below(valid@, logits@.len()),
    ensures
        r@ == L::softmax(tempered::<L>(logits@, temperature), valid@),
        r@.len() == logits@.len(),
{
    let scaled = temper::<L>(logits, temperature);
    let v = backend.vec_from_slice(scaled.as_slice());
    let pi = backend.softmax_masked(&v, valid);
    backend.vec_to_vec(&pi)
}

/// Probabilities under the turned-round logits, less one at the action.
pub fn reversed_delta<L: LinAlg>(
    backend: &L,
    logits: &[Scalar],
    valid: &[usize],
    action: usize,
    temperature: Scalar,
) -> (r: Vec<Scalar>)
    requires
        all_below(valid@, logits@.len()),
        action < logits@.len(),
    ensures
        r@ == one_less::<L>(
            L::softmax(reversed::<L>(logits@, temperature), valid@),
            action as int,
        ),
        r@.len() == logits@.len(),
{
    let mut rev: Vec<Scalar> = Vec::new();
    let mut i: usize = 0;
    while i < logits.len()
        invariant
            i <= logits@.len(),
            rev@.len() == i,
            forall|j: int| 0 <= j < i ==> rev@[j] == L::over(logits@[j].negated(), temperature),
        decreases logits@.len() - i,
    {
        rev.push(L::scalar_div(logits[i].neg(), temperature));
        i = i + 1;
    }
    assert(rev@ =~= reversed::<L>(logits@, temperature));
    let v = backend.vec_from_slice(rev.as_slice());
    let pi = backend.softmax_masked(&v, valid);
    let mut out = backend.vec_to_vec(&pi);
    let lowered = L::scalar_sub(out[action], Scalar::one());
    out.set(action, lowered);
    out
}

/// Probabilities of the open actions, zero elsewhere, less one at the action.
pub fn policy_direction<L: LinAlg>(pi: &[Scalar], valid: &[usize], action: usize) -> (r: Vec<
    Scalar,
>)
    requires
        all_below(valid@, pi@.len()),
        action < pi@.len(),
    ensures
        r@ == direction::<L>(pi@, valid@, action),
{
    let mut out: Vec<Scalar> = Vec::new();
    let mut i: usize = 0;
    while i < pi.len()
        invariant
            i <= pi@.len(),
            out@.len() == i,
            forall|j: int| 0 <= j < i ==> out@[j] == Scalar::zero(),
        decreases pi@.len() - i,
    {
        out.push(Scalar::zero());
        i = i + 1;
    }
    let mut k: usize = 0;
    while k < valid.len()
        invariant
            k <= valid@.len(),
            out@.len() == pi@.len(),
            all_below(valid@, pi@.len()),
            forall|j: int|
                0 <= j < out@.len() ==> #[trigger] out@[j] == (if exists|m: int|
                    0 <= m < k && valid@[m] == j {
                    pi@[j]
                } else {
                    Scalar::zero()
                }),
        decreases valid@.len() - k,
    {
        let a: usize = valid[k];
        let ghost before = out@;
        out.set(a, pi[a]);
        proof {
            assert forall|j: int| 0 <= j < out@.len() implies #[trigger] out@[j] == (
            if exists|m: int| 0 <= m < k + 1 && valid@[m] == j {
                pi@[j]
            } else {
                Scalar::zero()
            }) by {
                if j == a {
                    assert(valid@[k as int] == j);
                } else {
                    assert(out@[j] == before[j]);
                    if exists|m: int| 0 <= m < k && valid@[m] == j {
                        let m = choose|m: int| 0 <= m < k && valid@[m] == j;
                        assert(0 <= m < k + 1 && valid@[m] == j);
                    }
                }
            }
        }
        k = k + 1;
    }
    assert(out@ =~= Seq::new(
        pi@.len(),
        |i: int|
            if exists|m: int| 0 <= m < valid@.len() && valid@[m] == i {
                pi@[i]
            } else {
                Scalar::zero()
            },
    ));
    let lowered = L::scalar_sub(out[action], Scalar::one());
    out.set(action, lowered);
    out
}

/// Multiplies the entries of the listed actions.
pub fn weigh<L: LinAlg>(d: &mut Vec<Scalar>, valid: &[usize], k: Scalar)
    requires
        all_below(valid@, old(d)@.len()),
    ensures
        final(d)@ == weighted::<L>(old(d)@, valid@, k),
        final(d)@.len() == old(d)@.len(),
{
    let mut i: usize = 0;
    assert(valid@.take(0) =~= Seq::<usize>::empty());
    while i < valid.len()
        invariant
            i <= valid@.len(),
            all_below(valid@, old(d)@.len()),
            d@.len() == old(d)@.len(),
            d@ == weighted::<L>(old(d)@, valid@.take(i as int), k),
        decreases valid@.len() - i,
    {
        let a: usize = valid[i];
        let x = L::scalar_mul(d[a], k);
        d.set(a, x);
        proof {
            assert(valid@.take(i + 1).drop_last() =~= valid@.take(i as int));
        }
        i = i + 1;
    }
    assert(valid@.take(valid@.len() as int) =~= valid@);
}

/// Lowers the entries of the listed actions by the entropy gradient.
pub fn spread<L: LinAlg>(d: &mut Vec<Scalar>, pi: &[Scalar], valid: &[usize], coeff: Scalar)
    requires
        all_below(valid@, old(d)@.len()),
        all_below(valid@, pi@.len()),
    ensures
        final(d)@ == spread_out::<L>(old(d)@, pi@, valid@, coeff),
        final(d)@.len() == old(d)@.len(),
{
    let mut i: usize = 0;
    assert(valid@.take(0) =~= Seq::<usize>::empty());
    while i < valid.len()
        invariant
            i <= valid@.len(),
            all_below(valid@, old(d)@.len()),
            all_below(valid@, pi@.len()),
            d@.len() == old(d)@.len(),
            d@ == spread_out::<L>(old(d)@, pi@, valid@.take(i as int), coeff),
        decreases valid@.len() - i,
    {
        let a: usize = valid[i];
        let floor = Scalar::from_bits(MIN_PROBABILITY_BITS);
        let slope = L::scalar_add(L::scalar_ln(pi[a].max(floor)), Scalar::one());
        let x = L::scalar_sub(d[a], L::scalar_mul(coeff, slope));
        d.set(a, x);
        proof {
            assert(valid@.take(i + 1).drop_last() =~= valid@.take(i as int));
        }
        i = i + 1;
    }
    assert(valid@.take(valid@.len() as int) =~= valid@);
}

/// Carries an eligibility trace on by one step.
pub fn trace_on<L: LinAlg>(trace: &mut Vec<Scalar>, decay: Scalar, step: &[Scalar])
    requires
        old(trace)@.len() == step@.len(),
    ensures
        final(trace)@ == traced::<L>(old(trace)@, decay, step@),
{
    let mut i: usize = 0;
    while i < step.len()
        invariant
            i <= step@.len(),
            trace@.len() == step@.len(),
            old(trace)@.len() == step@.len(),
            forall|j: int|
                0 <= j < i ==> (#[trigger] trace@[j]) == L::plus(
                    L::times(old(trace)@[j], decay),
                    step@[j],
                ).clamped(clip().negated(), clip()),
            forall|j: int| i <= j < step@.len() ==> (#[trigger] trace@[j]) == old(trace)@[j],
        decreases step@.len() - i,
    {
        let x = L::scalar_add(L::scalar_mul(trace[i], decay), step[i]).clamp(clip().neg(), clip());
        trace.set(i, x);
        i = i + 1;
    }
    assert(trace@ =~= traced::<L>(old(trace)@, decay, step@));
}

/// Every entry multiplied from the left by `k`.
pub fn multiply<L: LinAlg>(k: Scalar, d: &[Scalar]) -> (r: Vec<Scalar>)
    ensures
        r@ == multiplied::<L>(k, d@),
{
    let mut out: Vec<Scalar> = Vec::new();
    let mut i: usize = 0;
    while i < d.len()
        invariant
            i <= d@.len(),
            out@.len() == i,
            forall|j: int| 0 <= j < i ==> out@[j] == L::times(k, d@[j]),
        decreases d@.len() - i,
    {
        out.push(L::scalar_mul(k, d[i]));
        i = i + 1;
    }
    assert(out@ =~= multiplied::<L>(k, d@));
    out
}

/// Adds a share of other entries.
pub fn nudge<L: LinAlg>(d: &mut Vec<Scalar>, strength: Scalar, g: &[Scalar])
    requires
        old(d)@.len() == g@.len(),
    ensures
        final(d)@ == nudged::<L>(old(d)@, strength, g@),
{
    let mut i: usize = 0;
    while i < g.len()
        invariant
            i <= g@.len(),
            d@.len() == g@.len(),
            old(d)@.len() == g@.len(),
            forall|j: int|
                0 <= j < i ==> (#[trigger] d@[j]) == L::plus(
                    old(d)@[j],
                    L::times(strength, g@[j]),
                ),
            forall|j: int| i <= j < g@.len() ==> (#[trigger] d@[j]) == old(d)@[j],
        decreases g@.len() - i,
    {
        let x = L::scalar_add(d[i], L::scalar_mul(strength, g[i]));
        d.set(i, x);
        i = i + 1;
    }
    assert(d@ =~= nudged::<L>(old(d)@, strength, g@));
}

fn log_probabilities<L: LinAlg>(logits: &[Scalar], valid: &[usize], temperature: Scalar) -> (r: Vec<
    Scalar,
>)
    requires
        all_below(valid@, logits@.len()),
    ensures
        r@ == log_policy::<L>(picked::<L>(logits@, valid@, temperature)),
{
    let ghost x = picked::<L>(logits@, valid@, temperature);
    let mut scaled: Vec<Scalar> = Vec::new();
    let mut k: usize = 0;
    while k < valid.len()
        invariant
            k <= valid@.len(),
            scaled@.len() == k,
            all_below(valid@, logits@.len()),
            forall|j: int|
                0 <= j < k ==> scaled@[j] == L::over(logits@[valid@[j] as int], temperature),
        decreases valid@.len() - k,
    {
        scaled.push(L::scalar_div(logits[valid[k]], temperature));
        k = k + 1;
    }
    assert(scaled@ =~= x);
    let norm = lse::<L>(scaled.as_slice());
    let mut out: Vec<Scalar> = Vec::new();
    let mut i: usize = 0;
    while i < scaled.len()
        invariant
            i <= scaled@.len(),
            out@.len() == i,
            scaled@ == x,
            norm == log_sum_exp::<L>(x),
            forall|j: int| 0 <= j < i ==> out@[j] == L::minus(x[j], norm),
        decreases scaled@.len() - i,
    {
        out.push(L::scalar_sub(scaled[i], norm));
        i = i + 1;
    }
    assert(out@ =~= log_policy::<L>(x));
    out
}

fn slope_of_divergence<L: LinAlg>(lp: &[Scalar], lq: &[Scalar]) -> (r: Vec<Scalar>)
    requires
        lp@.len() == lq@.len(),
    ensures
        r@ == divergence_slope::<L>(lp@, lq@),
{
    let mut terms: Vec<Scalar> = Vec::new();
    let mut i: usize = 0;
    while i < lp.len()
        invariant
            i <= lp@.len(),
            lp@.len() == lq@.len(),
            terms@.len() == i,
            forall|j: int|
                0 <= j < i ==> terms@[j] == L::times(
                    L::exponential(lp@[j]),
                    L::minus(lp@[j], lq@[j]),
                ),
        decreases lp@.len() - i,
    {
        terms.push(L::scalar_mul(L::scalar_exp(lp[i]), L::scalar_sub(lp[i], lq[i])));
        i = i + 1;
    }
    assert(terms@ =~= Seq::new(
        lp@.len(),
        |k: int| L::times(L::exponential(lp@[k]), L::minus(lp@[k], lq@[k])),
    ));
    let kl = sum::<L>(terms.as_slice());
    let mut out: Vec<Scalar> = Vec::new();
    let mut k: usize = 0;
    while k < lp.len()
        invariant
            k <= lp@.len(),
            lp@.len() == lq@.len(),
            out@.len() == k,
            kl == divergence::<L>(lp@, lq@),
            forall|j: int|
                0 <= j < k ==> out@[j] == L::times(
                    L::exponential(lp@[j]),
                    L::minus(L::minus(lp@[j], lq@[j]), kl),
                ),
        decreases lp@.len() - k,
    {
        let gap = L::scalar_sub(L::scalar_sub(lp[k], lq[k]), kl);
        out.push(L::scalar_mul(L::scalar_exp(lp[k]), gap));
        k = k + 1;
    }
    assert(out@ =~= divergence_slope::<L>(lp@, lq@));
    out
}

/// The gradient of the divergence of the live policy from a target policy.
pub fn compute_kl_gradient<L: LinAlg>(
    live: &[Scalar],
    target: &[Scalar],
    valid: &[usize],
    temperature: Scalar,
) -> (r: Vec<Scalar>)
    requires
        all_below(valid@, live@.len()),
        all_below(valid@, target@.len()),
    ensures
        r@ == kl_gradient::<L>(live@, target@, valid@, temperature),
        r@.len() == live@.len(),
{
    let lp = log_probabilities::<L>(live, valid, temperature);
    let lq = log_probabilities::<L>(target, valid, temperature);
    let g = slope_of_divergence::<L>(lp.as_slice(), lq.as_slice());
    let n: usize = live.len();
    let mut out = zero_list(n);
    let mut k: usize = 0;
    assert(valid@.take(0) =~= Seq::<usize>::empty());
    while k < valid.len()
        invariant
            k <= valid@.len(),
            all_below(valid@, n as nat),
            g@.len() == valid@.len(),
            out@.len() == n,
            out@ == scattered(n as nat, valid@.take(k as int), g@),
        decreases valid@.len() - k,
    {
        out.set(valid[k], g[k]);
        proof {
            assert(valid@.take(k + 1).drop_last() =~= valid@.take(k as int));
        }
        k = k + 1;
    }
    assert(valid@.take(valid@.len() as int) =~= valid@);
    let mut i: usize = 0;
    while i < n
        invariant
            i <= n,
            out@.len() == n,
            n == live@.len(),
            out@ == scattered(n as nat, valid@, g@),
            g@ == divergence_slope::<L>(
                log_policy::<L>(picked::<L>(live@, valid@, temperature)),
                log_policy::<L>(picked::<L>(target@, valid@, temperature)),
            ),
            forall|j: int| 0 <= j < i ==> (#[trigger] out@[j]).finite(),
        decreases n - i,
    {
        if !out[i].is_finite() {
            assert(!all_finite(out@));
            return zero_list(n);
        }
        i = i + 1;
    }
    out
}

/// The pull toward another policy is finite in every entry, whatever the logits are.
pub proof fn kl_gradient_is_finite<L: LinAlg>(
    live: Seq<Scalar>,
    target: Seq<Scalar>,
    valid: Seq<usize>,
    temperature: Scalar,
)
    ensures
        all_finite(kl_gradient::<L>(live, target, valid, temperature)),
{
    assert(Scalar::zero().finite());
}

proof fn scattered_elsewhere(n: nat, valid: Seq<usize>, g: Seq<Scalar>, a: int)
    requires
        0 <= a < n,
        all_below(valid, n),
        forall|k: int| 0 <= k < valid.len() ==> (#[trigger] valid[k]) != a,
    ensures
        scattered(n, valid, g).len() == n,
        scattered(n, valid, g)[a] == Scalar::zero(),
    decreases valid.len(),
{
    if valid.len() > 0 {
        let rest = valid.drop_last();
        assert forall|k: int| 0 <= k < rest.len() implies (#[trigger] rest[k]) < n && rest[k]
            != a by {
            assert(rest[k] == valid[k]);
        }
        scattered_elsewhere(n, rest, g, a);
        assert(valid[valid.len() - 1] != a);
    }
}

/// The pull toward another policy leaves closed actions alone.
pub proof fn kl_gradient_spares_closed_actions<L: LinAlg>(
    live: Seq<Scalar>,
    target: Seq<Scalar>,
    valid: Seq<usize>,
    temperature: Scalar,
    a: int,
)
    requires
        0 <= a < live.len(),
        all_below(valid, live.len()),
        forall|k: int| 0 <= k < valid.len() ==> (#[trigger] valid[k]) != a,
    ensures
        kl_gradient::<L>(live, target, valid, temperature)[a] == Scalar::zero(),
{
    scattered_elsewhere(
        live.len(),
        valid,
        divergence_slope::<L>(
            log_policy::<L>(picked::<L>(live, valid, temperature)),
            log_policy::<L>(picked::<L>(target, valid, temperature)),
        ),
        a,
    );
}

/// The eligibility trace stays within the clip, or is not a number.
pub proof fn trace_stays_clipped<L: LinAlg>(
    trace: Seq<Scalar>,
    decay: Scalar,
    step: Seq<Scalar>,
    i: int,
)
    requires
        0 <= i < trace.len(),
    ensures
        traced::<L>(trace, decay, step)[i].nan() || traced::<L>(trace, decay, step)[i].within(
            clip().negated(),
            clip(),
        ),
{
    let x = L::plus(L::times(trace[i], decay), step[i]);
    if !x.nan() {
        clamped_is_within(x, clip().negated(), clip());
    }
}

/// The direction of a step in one entry: the probability of the action where it is open, less
/// one where it is the action taken.
pub open spec fn meant_direction(
    rd: Reading,
    pi: Seq<Scalar>,
    valid: Seq<usize>,
    action: usize,
    i: int,
) -> real {
    (if valid.contains(i as usize) {
        rd.of(pi[i])
    } else {
        0 as real
    }) - (if i == action {
        1 as real
    } else {
        0 as real
    })
}

/// The direction of a step points from the action taken to the probabilities of the open ones;
/// closed actions have no part in it.
pub proof fn direction_reads<L: LinAlg>(
    rd: Reading,
    pi: Seq<Scalar>,
    valid: Seq<usize>,
    action: usize,
    i: int,
)
    requires
        reads::<L>(rd),
        pi.len() <= usize::MAX,
        0 <= i < pi.len(),
        action < pi.len(),
        pi[i].finite(),
        0 as real <= rd.of(pi[i]) <= 1 as real,
        rd.top >= 1 as real,
    ensures
        rd.shows(
            direction::<L>(pi, valid, action)[i],
            meant_direction(rd, pi, valid, action, i),
            rd.slack,
        ),
        sized(meant_direction(rd, pi, valid, action, i), 1 as real),
{
    let there = exists|k: int| 0 <= k < valid.len() && valid[k] == i;
    assert(there == valid.contains(i as usize)) by {
        if valid.contains(i as usize) {
            let k = choose|k: int| 0 <= k < valid.len() && valid[k] == i as usize;
            assert(valid[k] == i);
        }
        if there {
            let k = choose|k: int| 0 <= k < valid.len() && valid[k] == i;
            assert(valid[k] == i as usize);
        }
    }
    let x = if there {
        pi[i]
    } else {
        Scalar::zero()
    };
    assert(rd.shows(L::minus(x, Scalar::one()), rd.of(x) - 1 as real, rd.slack));
}

/// One entry of an eligibility trace after a step: the old entry times the decay, plus the
/// step's direction, wherever that is within the clip.
pub proof fn trace_entry_reads<L: LinAlg>(
    rd: Reading,
    trace: Seq<Scalar>,
    decay: Scalar,
    step: Seq<Scalar>,
    i: int,
    x: real,
    p: real,
    y: real,
    e: real,
    f: real,
    h: real,
)
    requires
        reads::<L>(rd),
        reads_order(rd),
        0 <= i < trace.len(),
        rd.shows(trace[i], x, e),
        sized(rd.of(trace[i]), rd.of(clip())),
        rd.shows(decay, p, f),
        0 as real <= p <= 1 as real,
        rd.shows(step[i], y, h),
        e >= 0 as real,
        f >= 0 as real,
        h >= 0 as real,
        sized(p * x + y, rd.of(clip()) - trace_error(rd, e, f, h)),
        rd.of(clip()) + rd.of(clip()) * f + rd.slack + h <= rd.top,
        rd.of(clip()) + rd.of(clip()) * f + e <= rd.top,
    ensures
        rd.shows(traced::<L>(trace, decay, step)[i], p * x + y, trace_error(rd, e, f, h)),
        sized(rd.of(traced::<L>(trace, decay, step)[i]), rd.of(clip())),
{
    let c = rd.of(clip());
    let t = rd.of(trace[i]);
    let d = rd.of(decay);
    let s = rd.slack;
    assert(clip().finite());
    assert(near(t * d, p * x, e + c * f) && c * f >= 0 as real && sized(t * d, c + c * f))
        by (nonlinear_arith)
        requires
            near(t, x, e),
            near(d, p, f),
            sized(t, c),
            0 as real <= p <= 1 as real,
            e >= 0 as real,
            f >= 0 as real,
    {
        let a = t - x;
        let b = d - p;
        assert(t * d == p * x + a * p + t * b);
        assert(sized(a * p, e));
        assert(sized(t * b, c * f));
        assert(t * d == t * p + t * b);
        assert(sized(t * p, c));
    }
    let faded = L::times(trace[i], decay);
    assert(rd.shows(faded, t * d, s));
    assert(rd.shows(faded, p * x, e + c * f + s));
    let sum = L::plus(faded, step[i]);
    assert(sized(rd.of(faded) + rd.of(step[i]), rd.top));
    assert(rd.shows(sum, p * x + y, e + c * f + s + h + s));
    assert(clip().negated().finite());
    assert(!sum.below(clip().negated()));
    assert(!clip().below(sum));
}

/// How far an entry of the trace may be off after a step, where the old entry, the decay and the
/// direction are known up to `e`, `f` and `h`.
pub open spec fn trace_error(rd: Reading, e: real, f: real, h: real) -> real {
    e + rd.of(clip()) * f + h + rd.slack + rd.slack
}

/// Arithmetic in which a number less itself is nothing, a positive number times nothing is
/// nothing, and nothing added to nothing is nothing.
pub open spec fn cancels<L: LinAlg>() -> bool {
    &&& forall|x: Scalar| x.finite() ==> #[trigger] L::minus(x, x) == Scalar::zero()
    &&& forall|x: Scalar|
        L::exponential(x).finite() ==> #[trigger] L::times(L::exponential(x), Scalar::zero())
            == Scalar::zero()
    &&& L::plus(Scalar::zero(), Scalar::zero()) == Scalar::zero()
}

proof fn zeros_add_up<L: LinAlg>(n: nat)
    requires
        cancels::<L>(),
    ensures
        total::<L>(zero_seq(n)) == Scalar::zero(),
    decreases n,
{
    if n > 0 {
        assert(zero_seq(n).drop_last() =~= zero_seq((n - 1) as nat));
        zeros_add_up::<L>((n - 1) as nat);
    }
}

proof fn scattered_zeros(n: nat, valid: Seq<usize>, g: Seq<Scalar>)
    requires
        all_below(valid, n),
        valid.len() <= g.len(),
        forall|k: int| 0 <= k < valid.len() ==> (#[trigger] g[k]) == Scalar::zero(),
    ensures
        scattered(n, valid, g) == zero_seq(n),
    decreases valid.len(),
{
    if valid.len() > 0 {
        let rest = valid.drop_last();
        assert forall|k: int| 0 <= k < rest.len() implies (#[trigger] rest[k]) < n by {
            assert(rest[k] == valid[k]);
        }
        scattered_zeros(n, rest, g);
        assert(scattered(n, valid, g) =~= zero_seq(n));
    }
}

/// A policy is not pulled away from one that it already equals: where live and target output
/// agree on the listed actions, the pull is zero in every entry, at every temperature, provided
/// that the log-probabilities and probabilities of the live output are finite.
pub proof fn agreeing_policies_do_not_pull<L: LinAlg>(
    live: Seq<Scalar>,
    target: Seq<Scalar>,
    valid: Seq<usize>,
    temperature: Scalar,
)
    requires
        cancels::<L>(),
        all_below(valid, live.len()),
        all_below(valid, target.len()),
        forall|k: int|
            0 <= k < valid.len() ==> live[#[trigger] valid[k] as int] == target[valid[k] as int],
        forall|k: int|
            0 <= k < valid.len() ==> {
                let lp = #[trigger] log_policy::<L>(picked::<L>(live, valid, temperature))[k];
                lp.finite() && L::exponential(lp).finite()
            },
    ensures
        kl_gradient::<L>(live, target, valid, temperature) == zero_seq(live.len()),
{
    let lp = log_policy::<L>(picked::<L>(live, valid, temperature));
    let lq = log_policy::<L>(picked::<L>(target, valid, temperature));
    assert(picked::<L>(live, valid, temperature) =~= picked::<L>(target, valid, temperature)) by {
        assert forall|k: int| 0 <= k < valid.len() implies live[valid[k] as int]
            == target[valid[k] as int] by {
            assert(valid[k] < live.len());
        }
    }
    let terms = Seq::new(
        lp.len(),
        |k: int| L::times(L::exponential(lp[k]), L::minus(lp[k], lq[k])),
    );
    assert forall|k: int| 0 <= k < lp.len() implies terms[k] == Scalar::zero() by {
        assert(lp[k].finite());
        assert(L::minus(lp[k], lp[k]) == Scalar::zero());
    }
    assert(terms =~= zero_seq(lp.len()));
    zeros_add_up::<L>(lp.len());
    let g = divergence_slope::<L>(lp, lq);
    assert(Scalar::zero().finite());
    assert(L::minus(Scalar::zero(), Scalar::zero()) == Scalar::zero());
    assert forall|k: int| 0 <= k < valid.len() implies (#[trigger] g[k]) == Scalar::zero() by {
        assert(lp[k].finite());
        assert(L::minus(lp[k], lp[k]) == Scalar::zero());
    }
    scattered_zeros(live.len(), valid, g);
}

proof fn scattered_at(n: nat, valid: Seq<usize>, g: Seq<Scalar>, k: int)
    requires
        all_below(valid, n),
        valid.no_duplicates(),
        valid.len() <= g.len(),
        0 <= k < valid.len(),
    ensures
        scattered(n, valid, g).len() == n,
        scattered(n, valid, g)[valid[k] as int] == g[k],
    decreases valid.len(),
{
    let rest = valid.drop_last();
    assert forall|j: int| 0 <= j < rest.len() implies (#[trigger] rest[j]) < n by {
        assert(rest[j] == valid[j]);
    }
    scattered_len(n, rest, g);
    if k < valid.len() - 1 {
        scattered_at(n, rest, g, k);
        assert(rest[k] == valid[k]);
        assert(valid[k] != valid[valid.len() - 1]);
    }
    assert(valid[k] < n);
}

proof fn scattered_len(n: nat, valid: Seq<usize>, g: Seq<Scalar>)
    requires
        all_below(valid, n),
        valid.len() <= g.len(),
    ensures
        scattered(n, valid, g).len() == n,
        (forall|i: int| 0 <= i < valid.len() ==> (#[trigger] g[i]).finite()) ==> all_finite(
            scattered(n, valid, g),
        ),
    decreases valid.len(),
{
    assert(Scalar::zero().finite());
    if valid.len() > 0 {
        let rest = valid.drop_last();
        assert forall|j: int| 0 <= j < rest.len() implies (#[trigger] rest[j]) < n by {
            assert(rest[j] == valid[j]);
        }
        scattered_len(n, rest, g);
    }
}

/// The share of each action in the divergence.
pub open spec fn divergence_shares(p: Seq<real>, a: Seq<real>, b: Seq<real>) -> Seq<real> {
    Seq::new(a.len(), |k: int| p[k] * (a[k] - b[k]))
}

/// The pull on an action is its probability times how far its log-ratio exceeds the average
/// log-ratio, which is the divergence: it is positive where the live policy favours the action
/// over the target more than it does on average, negative where less.
pub proof fn pull_is_the_excess_log_ratio<L: LinAlg>(
    rd: Reading,
    live: Seq<Scalar>,
    target: Seq<Scalar>,
    valid: Seq<usize>,
    temperature: Scalar,
    k: int,
    bound: real,
)
    requires
        reads::<L>(rd),
        all_below(valid, live.len()),
        valid.no_duplicates(),
        rd.bounds(log_policy::<L>(picked::<L>(live, valid, temperature)), bound),
        rd.bounds(log_policy::<L>(picked::<L>(target, valid, temperature)), bound),
        forall|j: int|
            0 <= j < valid.len() ==> {
                let p = L::exponential(
                    #[trigger] log_policy::<L>(picked::<L>(live, valid, temperature))[j],
                );
                p.finite() && 0 as real <= rd.of(p) <= 1 as real
            },
        bound >= 0 as real,
        (bound + bound + rd.slack + rd.slack + rd.slack) * ((valid.len() + 1) as real)
            + rd.slack <= rd.top,
        0 <= k < valid.len(),
    ensures
        ({
            let lp = log_policy::<L>(picked::<L>(live, valid, temperature));
            let lq = log_policy::<L>(picked::<L>(target, valid, temperature));
            let p = Seq::new(lp.len(), |j: int| rd.of(L::exponential(lp[j])));
            let average = real_sum(divergence_shares(p, rd.all(lp), rd.all(lq)));
            rd.shows(
                kl_gradient::<L>(live, target, valid, temperature)[valid[k] as int],
                p[k] * (rd.of(lp[k]) - rd.of(lq[k]) - average),
                (rd.slack + rd.slack + rd.slack) * ((valid.len() + 1) as real),
            )
        }),
{
    let lp = log_policy::<L>(picked::<L>(live, valid, temperature));
    let lq = log_policy::<L>(picked::<L>(target, valid, temperature));
    let p = Seq::new(lp.len(), |j: int| rd.of(L::exponential(lp[j])));
    let shares = divergence_shares(p, rd.all(lp), rd.all(lq));
    let average = real_sum(shares);
    let s = rd.slack;
    let n = valid.len() as real;
    let wide = bound + bound;
    assert((valid.len() + 1) as real == n + 1 as real);
    assert((wide + s + s + s) * (n + 1 as real) == wide * n + wide + (s + s + s) * n + s + s + s
        && wide * n >= 0 as real && (s + s + s) * n >= 0 as real && (wide + (s + s) + s) * n
        == wide * n + (s + s + s) * n && (s + s + s) * (n + 1 as real) == (s + s + s) * n + s + s
        + s && ((s + s) + s) * n == (s + s + s) * n) by (nonlinear_arith)
        requires
            n >= 0 as real,
            s >= 0 as real,
            wide >= 0 as real,
    ;
    let terms = Seq::new(
        lp.len(),
        |j: int| L::times(L::exponential(lp[j]), L::minus(lp[j], lq[j])),
    );
    assert forall|j: int| 0 <= j < terms.len() implies rd.shows(
        #[trigger] terms[j],
        shares[j],
        s + s,
    ) && sized(shares[j], wide) by {
        assert(lp[j].finite() && lq[j].finite());
        assert(p[j] == rd.of(L::exponential(lp[j])));
        likely_times::<L>(rd, lp[j], L::minus(lp[j], lq[j]), rd.of(lp[j]) - rd.of(lq[j]), s, wide);
    }
    assert forall|j: int| 0 <= j < shares.len() implies sized(#[trigger] shares[j], wide) by {
        assert(rd.shows(terms[j], shares[j], s + s));
    }
    total_is_the_sum::<L>(rd, terms, shares, s + s, wide);
    let g = divergence_slope::<L>(lp, lq);
    let kl = divergence::<L>(lp, lq);
    assert(kl == total::<L>(terms));
    assert forall|j: int| 0 <= j < valid.len() implies (#[trigger] g[j]).finite() && rd.shows(
        g[j],
        p[j] * (rd.of(lp[j]) - rd.of(lq[j]) - average),
        (s + s + s) * (n + 1 as real),
    ) by {
        assert(lp[j].finite() && lq[j].finite());
        let ratio = rd.of(lp[j]) - rd.of(lq[j]);
        let gap = L::minus(L::minus(lp[j], lq[j]), kl);
        difference_shows::<L>(
            rd,
            L::minus(lp[j], lq[j]),
            kl,
            ratio,
            average,
            s,
            (s + s + s) * n,
        );
        assert(p[j] == rd.of(L::exponential(lp[j])));
        likely_times::<L>(
            rd,
            lp[j],
            gap,
            ratio - average,
            s + (s + s + s) * n + s,
            wide + wide * n,
        );
    }
    scattered_len(live.len(), valid, g);
    scattered_at(live.len(), valid, g, k);
}

proof fn likely_times<L: LinAlg>(rd: Reading, lp: Scalar, x: Scalar, y: real, e: real, q: real)
    requires
        reads::<L>(rd),
        L::exponential(lp).finite(),
        0 as real <= rd.of(L::exponential(lp)) <= 1 as real,
        rd.shows(x, y, e),
        sized(y, q),
        e >= 0 as real,
        q + e <= rd.top,
    ensures
        rd.shows(
            L::times(L::exponential(lp), x),
            rd.of(L::exponential(lp)) * y,
            e + rd.slack,
        ),
        sized(rd.of(L::exponential(lp)) * y, q),
{
    let p = rd.of(L::exponential(lp));
    let z = rd.of(x);
    assert(near(p * z, p * y, e) && sized(p * y, q) && sized(p * z, q + e)) by (nonlinear_arith)
        requires
            near(z, y, e),
            sized(y, q),
            0 as real <= p <= 1 as real,
            e >= 0 as real,
    ;
}

/// The log-probabilities of two actions differ by as much as their outputs, taken at the
/// temperature: the policy is the one that the output gives at that temperature.
pub proof fn log_policy_keeps_differences<L: LinAlg>(
    rd: Reading,
    logits: Seq<Scalar>,
    valid: Seq<usize>,
    temperature: Scalar,
    j: int,
    k: int,
    bound: real,
)
    requires
        reads::<L>(rd),
        reads_quotients::<L>(rd),
        temperature.finite(),
        rd.of(temperature) > 0 as real,
        0 <= j < valid.len(),
        0 <= k < valid.len(),
        logits[valid[j] as int].finite(),
        logits[valid[k] as int].finite(),
        sized(rd.of(logits[valid[j] as int]) / rd.of(temperature), bound),
        sized(rd.of(logits[valid[k] as int]) / rd.of(temperature), bound),
        log_sum_exp::<L>(picked::<L>(logits, valid, temperature)).finite(),
        sized(rd.of(log_sum_exp::<L>(picked::<L>(logits, valid, temperature))), bound),
        bound + bound + rd.slack <= rd.top,
        bound >= 0 as real,
    ensures
        ({
            let lp = log_policy::<L>(picked::<L>(logits, valid, temperature));
            let t = rd.of(temperature);
            &&& lp[j].finite()
            &&& lp[k].finite()
            &&& near(
                rd.of(lp[j]) - rd.of(lp[k]),
                rd.of(logits[valid[j] as int]) / t - rd.of(logits[valid[k] as int]) / t,
                rd.slack + rd.slack + rd.slack + rd.slack,
            )
        }),
{
    let x = picked::<L>(logits, valid, temperature);
    let norm = log_sum_exp::<L>(x);
    let t = rd.of(temperature);
    let a = logits[valid[j] as int];
    let b = logits[valid[k] as int];
    assert(x[j] == L::over(a, temperature) && x[k] == L::over(b, temperature));
    assert(rd.shows(x[j], rd.of(a) / t, rd.slack));
    assert(rd.shows(x[k], rd.of(b) / t, rd.slack));
    assert(rd.shows(L::minus(x[j], norm), rd.of(x[j]) - rd.of(norm), rd.slack));
    assert(rd.shows(L::minus(x[k], norm), rd.of(x[k]) - rd.of(norm), rd.slack));
}

/// Pushing the output of every listed action by the same share of another gradient adds just
/// that share.
pub proof fn nudge_reads<L: LinAlg>(
    rd: Reading,
    d: Seq<Scalar>,
    strength: Scalar,
    g: Seq<Scalar>,
    i: int,
    x: real,
    e: real,
)
    requires
        reads::<L>(rd),
        0 <= i < d.len(),
        rd.shows(d[i], x, e),
        e >= 0 as real,
        strength.finite(),
        g[i].finite(),
        sized(rd.of(strength) * rd.of(g[i]), rd.top),
        sized(x + rd.of(strength) * rd.of(g[i]), rd.top - e - rd.slack),
    ensures
        rd.shows(
            nudged::<L>(d, strength, g)[i],
            x + rd.of(strength) * rd.of(g[i]),
            e + rd.slack + rd.slack,
        ),
{
    sum_shows::<L>(
        rd,
        d[i],
        L::times(strength, g[i]),
        x,
        rd.of(strength) * rd.of(g[i]),
        e,
        rd.slack,
    );
}

proof fn weighted_at<L: LinAlg>(d: Seq<Scalar>, valid: Seq<usize>, k: Scalar, i: int)
    requires
        all_below(valid, d.len()),
        valid.no_duplicates(),
        0 <= i < d.len() <= usize::MAX,
    ensures
        weighted::<L>(d, valid, k).len() == d.len(),
        weighted::<L>(d, valid, k)[i] == if valid.contains(i as usize) {
            L::times(d[i], k)
        } else {
            d[i]
        },
    decreases valid.len(),
{
    if valid.len() > 0 {
        let rest = valid.drop_last();
        assert forall|j: int| 0 <= j < rest.len() implies (#[trigger] rest[j]) < d.len() by {
            assert(rest[j] == valid[j]);
        }
        weighted_at::<L>(d, rest, k, i);
        listed_without_last(valid, i as usize);
    }
}

proof fn spread_at<L: LinAlg>(
    d: Seq<Scalar>,
    pi: Seq<Scalar>,
    valid: Seq<usize>,
    coeff: Scalar,
    i: int,
)
    requires
        all_below(valid, d.len()),
        valid.no_duplicates(),
        0 <= i < d.len() <= usize::MAX,
    ensures
        spread_out::<L>(d, pi, valid, coeff).len() == d.len(),
        spread_out::<L>(d, pi, valid, coeff)[i] == if valid.contains(i as usize) {
            L::minus(d[i], L::times(coeff, entropy_slope::<L>(pi[i])))
        } else {
            d[i]
        },
    decreases valid.len(),
{
    if valid.len() > 0 {
        let rest = valid.drop_last();
        assert forall|j: int| 0 <= j < rest.len() implies (#[trigger] rest[j]) < d.len() by {
            assert(rest[j] == valid[j]);
        }
        spread_at::<L>(d, pi, rest, coeff, i);
        listed_without_last(valid, i as usize);
    }
}

proof fn listed_without_last(valid: Seq<usize>, a: usize)
    requires
        valid.len() > 0,
        valid.no_duplicates(),
    ensures
        valid.contains(a) <==> valid.drop_last().contains(a) || a == valid.last(),
        a == valid.last() ==> !valid.drop_last().contains(a),
{
    let rest = valid.drop_last();
    if valid.contains(a) {
        let k = choose|k: int| 0 <= k < valid.len() && valid[k] == a;
        if k < rest.len() {
            assert(rest[k] == a);
        }
    }
    if rest.contains(a) {
        let k = choose|k: int| 0 <= k < rest.len() && rest[k] == a;
        assert(valid[k] == a);
        assert(valid[k] != valid[valid.len() - 1]);
    }
    assert(valid[valid.len() - 1] == valid.last());
}

/// An open action's entry is multiplied once.
pub proof fn weighing_multiplies_open_actions<L: LinAlg>(
    rd: Reading,
    d: Seq<Scalar>,
    valid: Seq<usize>,
    k: Scalar,
    i: int,
    x: real,
    e: real,
    p: real,
    q: real,
)
    requires
        reads::<L>(rd),
        all_below(valid, d.len()),
        valid.no_duplicates(),
        0 <= i < d.len() <= usize::MAX,
        valid.contains(i as usize),
        rd.shows(d[i], x, e),
        k.finite(),
        sized(x, p),
        sized(rd.of(k), q),
        e >= 0 as real,
        p >= 0 as real,
        q >= 0 as real,
        p * q + e * q <= rd.top,
    ensures
        weighted::<L>(d, valid, k).len() == d.len(),
        rd.shows(weighted::<L>(d, valid, k)[i], x * rd.of(k), e * q + rd.slack),
{
    weighted_at::<L>(d, valid, k, i);
    assert(e * (q + 0 as real) + p * (0 as real) == e * q) by (nonlinear_arith);
    product_shows::<L>(rd, d[i], k, x, rd.of(k), e, 0 as real, p, q);
}

/// The entropy term lowers the entry of an open action by its weight times one plus the logarithm
/// of the action's probability.
pub proof fn entropy_lowers_open_actions<L: LinAlg>(
    rd: Reading,
    d: Seq<Scalar>,
    pi: Seq<Scalar>,
    valid: Seq<usize>,
    coeff: Scalar,
    i: int,
    x: real,
    e: real,
    c: real,
    q: real,
)
    requires
        reads::<L>(rd),
        all_below(valid, d.len()),
        valid.no_duplicates(),
        0 <= i < d.len() <= usize::MAX,
        valid.contains(i as usize),
        rd.shows(d[i], x, e),
        e >= 0 as real,
        coeff.finite(),
        sized(rd.of(coeff), c),
        ({
            let ln = L::logarithm(pi[i].larger(Scalar { bits: MIN_PROBABILITY_BITS }));
            ln.finite() && sized(rd.of(ln) + 1 as real, q)
        }),
        c >= 0 as real,
        q >= 0 as real,
        q <= rd.top,
        c * q + c * rd.slack <= rd.top,
        sized(x, rd.top - e - c * q - c * rd.slack - rd.slack),
    ensures
        rd.shows(
            spread_out::<L>(d, pi, valid, coeff)[i],
            x - rd.of(coeff) * (rd.of(
                L::logarithm(pi[i].larger(Scalar { bits: MIN_PROBABILITY_BITS })),
            ) + 1 as real),
            e + c * rd.slack + rd.slack + rd.slack,
        ),
{
    spread_at::<L>(d, pi, valid, coeff, i);
    let ln = L::logarithm(pi[i].larger(Scalar { bits: MIN_PROBABILITY_BITS }));
    let y = rd.of(ln) + 1 as real;
    let slope = entropy_slope::<L>(pi[i]);
    assert(rd.shows(slope, y, rd.slack));
    assert((0 as real) * (q + rd.slack) + c * rd.slack == c * rd.slack) by (nonlinear_arith);
    product_shows::<L>(rd, coeff, slope, rd.of(coeff), y, 0 as real, rd.slack, c, q);
    products_near(rd.of(coeff), y, rd.of(coeff), y, 0 as real, 0 as real, c, q);
    difference_shows::<L>(
        rd,
        d[i],
        L::times(coeff, slope),
        x,
        rd.of(coeff) * y,
        e,
        c * rd.slack + rd.slack,
    );
}

proof fn quotient_times_divisor(x: real, t: real, q: real, o: real, s: real, top: real)
    requires
        t > 0 as real,
        q == x / t,
        sized(x, top * t),
        near(o, q, s) || !sized(q, top),
    ensures
        sized(q, top),
        near(o * t, x, s * t),
{
    assert(q * t == x) by (nonlinear_arith)
        requires
            q == x / t,
            t > 0 as real,
    ;
    assert(q <= top) by (nonlinear_arith)
        requires
            q * t <= top * t,
            t > 0 as real,
    ;
    assert(q >= -top) by (nonlinear_arith)
        requires
            q * t >= -(top * t),
            t > 0 as real,
    ;
    assert(near(o * t, q * t, s * t)) by (nonlinear_arith)
        requires
            near(o, q, s),
            t > 0 as real,
    ;
}

/// Tempered logits, times the temperature, are the logits; reversed ones are the logits turned
/// round.
pub proof fn tempering_divides_by_the_temperature<L: LinAlg>(
    rd: Reading,
    logits: Seq<Scalar>,
    temperature: Scalar,
    i: int,
)
    requires
        reads::<L>(rd),
        reads_order(rd),
        reads_quotients::<L>(rd),
        0 <= i < logits.len(),
        logits[i].finite(),
        temperature.finite(),
        rd.of(temperature) > 0 as real,
        sized(rd.of(logits[i]), rd.top * rd.of(temperature)),
    ensures
        tempered::<L>(logits, temperature)[i].finite(),
        near(
            rd.of(tempered::<L>(logits, temperature)[i]) * rd.of(temperature),
            rd.of(logits[i]),
            rd.slack * rd.of(temperature),
        ),
        reversed::<L>(logits, temperature)[i].finite(),
        near(
            rd.of(reversed::<L>(logits, temperature)[i]) * rd.of(temperature),
            -rd.of(logits[i]),
            rd.slack * rd.of(temperature),
        ),
{
    let t = rd.of(temperature);
    let x = rd.of(logits[i]);
    let back = logits[i].negated();
    assert(back.finite() && rd.of(back) == -x);
    let a = L::over(logits[i], temperature);
    let b = L::over(back, temperature);
    quotient_times_divisor(x, t, x / t, rd.of(a), rd.slack, rd.top);
    quotient_times_divisor(-x, t, (-x) / t, rd.of(b), rd.slack, rd.top);
}

} // verus!
