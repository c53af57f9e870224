//! Sums, averages and softmax statistics over lists of numbers.

use vstd::prelude::*;

use crate::linalg::{zero_seq, LinAlg};
use crate::reading::{
    near, product_shows, products_near, reads, reads_order, reads_quotients, reads_roots,
    real_sum, sized, sum_shows, sums_are_sized, Reading,
};
use crate::scalar::Scalar;

verus! {

/// The number `0.5`.
pub const HALF_BITS: u64 = 0x3fe0_0000_0000_0000;

/// The number `1.5`.
pub const THREE_HALVES_BITS: u64 = 0x3ff8_0000_0000_0000;

/// Negative infinity.
pub const NEG_INFINITY_BITS: u64 = 0xfff0_0000_0000_0000;

/// The sum of a list, added up from the front.
pub open spec fn total<L: LinAlg>(s: Seq<Scalar>) -> Scalar
    decreases s.len(),
{
    if s.len() == 0 {
        Scalar::zero()
    } else {
        L::plus(total::<L>(s.drop_last()), s.last())
    }
}

/// The largest number of a list; negative infinity for an empty one.
pub open spec fn peak(s: Seq<Scalar>) -> Scalar
    decreases s.len(),
{
    if s.len() == 0 {
        Scalar { bits: NEG_INFINITY_BITS }
    } else {
        peak(s.drop_last()).larger(s.last())
    }
}

/// The average of a list.
pub open spec fn mean<L: LinAlg>(s: Seq<Scalar>) -> Scalar {
    L::over(total::<L>(s), L::count(s.len()))
}

/// The squared distances of a list from a number.
pub open spec fn squared_deviations<L: LinAlg>(s: Seq<Scalar>, center: Scalar) -> Seq<Scalar> {
    Seq::new(
        s.len(),
        |i: int| L::times(L::minus(s[i], center), L::minus(s[i], center)),
    )
}

/// The spread of a list around its average.
pub open spec fn deviation<L: LinAlg>(s: Seq<Scalar>) -> Scalar {
    L::root(L::over(total::<L>(squared_deviations::<L>(s, mean::<L>(s))), L::count(s.len())))
}

/// The root of the average square of a list; an empty list counts as one entry.
pub open spec fn root_mean_square<L: LinAlg>(s: Seq<Scalar>) -> Scalar {
    L::root(
        L::over(
            total::<L>(Seq::new(s.len(), |i: int| L::times(s[i], s[i]))),
            L::count(
                if s.len() == 0 {
                    1
                } else {
                    s.len()
                },
            ),
        ),
    )
}

/// The logarithm of the sum of exponentials, computed from the peak.
pub open spec fn log_sum_exp<L: LinAlg>(s: Seq<Scalar>) -> Scalar {
    L::plus(
        L::logarithm(
            total::<L>(Seq::new(s.len(), |i: int| L::exponential(L::minus(s[i], peak(s))))),
        ),
        peak(s),
    )
}

/// A list of zeros.
pub fn zero_list(n: usize) -> (r: Vec<Scalar>)
    ensures
        r@ == zero_seq(n as nat),
{
    let mut out: Vec<Scalar> = Vec::new();
    let mut i: usize = 0;
    while i < n
        invariant
            i <= n,
            out@.len() == i,
            forall|j: int| 0 <= j < i ==> out@[j] == Scalar::zero(),
        decreases n - i,
    {
        out.push(Scalar::zero());
        i = i + 1;
    }
    assert(out@ =~= zero_seq(n as nat));
    out
}

/// The sum of a list.
pub fn sum<L: LinAlg>(s: &[Scalar]) -> (r: Scalar)
    ensures
        r == total::<L>(s@),
{
    let mut acc = Scalar::zero();
    let mut i: usize = 0;
    while i < s.len()
        invariant
            i <= s@.len(),
            acc == total::<L>(s@.take(i as int)),
        decreases s@.len() - i,
    {
        acc = L::scalar_add(acc, s[i]);
        proof {
            assert(s@.take(i + 1).drop_last() =~= s@.take(i as int));
        }
        i = i + 1;
    }
    assert(s@.take(s@.len() as int) =~= s@);
    acc
}

/// The largest number of a list.
pub fn max_of(s: &[Scalar]) -> (r: Scalar)
    ensures
        r == peak(s@),
{
    let mut acc = Scalar::from_bits(NEG_INFINITY_BITS);
    let mut i: usize = 0;
    while i < s.len()
        invariant
            i <= s@.len(),
            acc == peak(s@.take(i as int)),
        decreases s@.len() - i,
    {
        acc = acc.max(s[i]);
        proof {
            assert(s@.take(i + 1).drop_last() =~= s@.take(i as int));
        }
        i = i + 1;
    }
    assert(s@.take(s@.len() as int) =~= s@);
    acc
}

/// The average of a list.
pub fn average<L: LinAlg>(s: &[Scalar]) -> (r: Scalar)
    ensures
        r == mean::<L>(s@),
{
    L::scalar_div(sum::<L>(s), L::scalar_from_count(s.len() as u64))
}

/// The spread of a list around its average.
pub fn spread<L: LinAlg>(s: &[Scalar]) -> (r: Scalar)
    ensures
        r == deviation::<L>(s@),
{
    let center = average::<L>(s);
    let mut squares: Vec<Scalar> = Vec::new();
    let mut i: usize = 0;
    while i < s.len()
        invariant
            i <= s@.len(),
            squares@.len() == i,
            center == mean::<L>(s@),
            forall|j: int|
                0 <= j < i ==> squares@[j] == L::times(
                    L::minus(s@[j], center),
                    L::minus(s@[j], center),
                ),
        decreases s@.len() - i,
    {
        let d = L::scalar_sub(s[i], center);
        squares.push(L::scalar_mul(d, d));
        i = i + 1;
    }
    assert(squares@ =~= squared_deviations::<L>(s@, center));
    L::scalar_sqrt(
        L::scalar_div(sum::<L>(squares.as_slice()), L::scalar_from_count(s.len() as u64)),
    )
}

/// The root of the average square of a list.
pub fn rms<L: LinAlg>(s: &[Scalar]) -> (r: Scalar)
    ensures
        r == root_mean_square::<L>(s@),
{
    let mut squares: Vec<Scalar> = Vec::new();
    let mut i: usize = 0;
    while i < s.len()
        invariant
            i <= s@.len(),
            squares@.len() == i,
            forall|j: int| 0 <= j < i ==> squares@[j] == L::times(s@[j], s@[j]),
        decreases s@.len() - i,
    {
        squares.push(L::scalar_mul(s[i], s[i]));
        i = i + 1;
    }
    assert(squares@ =~= Seq::new(s@.len(), |i: int| L::times(s@[i], s@[i])));
    let n: u64 = if s.len() == 0 {
        1
    } else {
        s.len() as u64
    };
    L::scalar_sqrt(L::scalar_div(sum::<L>(squares.as_slice()), L::scalar_from_count(n)))
}

/// The logarithm of the sum of exponentials.
pub fn lse<L: LinAlg>(s: &[Scalar]) -> (r: Scalar)
    ensures
        r == log_sum_exp::<L>(s@),
{
    let top = max_of(s);
    let mut terms: Vec<Scalar> = Vec::new();
    let mut i: usize = 0;
    while i < s.len()
        invariant
            i <= s@.len(),
            terms@.len() == i,
            top == peak(s@),
            forall|j: int| 0 <= j < i ==> terms@[j] == L::exponential(L::minus(s@[j], top)),
        decreases s@.len() - i,
    {
        terms.push(L::scalar_exp(L::scalar_sub(s[i], top)));
        i = i + 1;
    }
    assert(terms@ =~= Seq::new(s@.len(), |i: int| L::exponential(L::minus(s@[i], peak(s@)))));
    L::scalar_add(L::scalar_ln(sum::<L>(terms.as_slice())), top)
}

/// A sum is what its entries add up to: where each is known up to `e`, the sum is known up to
/// `e` and the slack for each of them.
pub proof fn total_is_the_sum<L: LinAlg>(
    rd: Reading,
    s: Seq<Scalar>,
    xs: Seq<real>,
    e: real,
    bound: real,
)
    requires
        reads::<L>(rd),
        s.len() == xs.len(),
        forall|i: int| 0 <= i < s.len() ==> rd.shows(#[trigger] s[i], xs[i], e),
        forall|i: int| 0 <= i < xs.len() ==> sized(#[trigger] xs[i], bound),
        e >= 0 as real,
        bound >= 0 as real,
        (bound + e + rd.slack) * (s.len() as real) <= rd.top,
    ensures
        rd.shows(total::<L>(s), real_sum(xs), (e + rd.slack) * (s.len() as real)),
        sized(real_sum(xs), bound * (s.len() as real)),
    decreases s.len(),
{
    let k = rd.slack;
    sums_are_sized(xs, bound);
    if s.len() > 0 {
        let a = s.drop_last();
        let b = xs.drop_last();
        let m = a.len() as real;
        let n = s.len() as real;
        assert(n == m + 1 as real);
        assert((bound + e + k) * m <= (bound + e + k) * n && (e + k) * n == (e + k) * m + e + k
            && (bound + e + k) * n == bound * n + (e + k) * n && (e + k) * m >= 0 as real)
            by (nonlinear_arith)
            requires
                n == m + 1 as real,
                m >= 0 as real,
                bound >= 0 as real,
                e >= 0 as real,
                k >= 0 as real,
        ;
        assert forall|i: int| 0 <= i < a.len() implies rd.shows(#[trigger] a[i], b[i], e) by {
            assert(rd.shows(s[i], xs[i], e));
        }
        assert forall|i: int| 0 <= i < b.len() implies sized(#[trigger] b[i], bound) by {
            assert(sized(xs[i], bound));
        }
        total_is_the_sum::<L>(rd, a, b, e, bound);
        assert(rd.shows(s[s.len() - 1], xs[s.len() - 1], e));
        sum_shows::<L>(
            rd,
            total::<L>(a),
            s.last(),
            real_sum(b),
            xs.last(),
            (e + k) * m,
            e,
        );
    } else {
        assert((e + k) * (0 as real) == 0 as real) by (nonlinear_arith);
    }
}

/// An average is the sum of the entries over their number: times the number, it is the sum.
pub proof fn mean_is_sum_over_number<L: LinAlg>(rd: Reading, s: Seq<Scalar>, bound: real)
    requires
        reads::<L>(rd),
        reads_quotients::<L>(rd),
        s.len() > 0,
        rd.bounds(s, bound),
        bound >= 0 as real,
        (bound + rd.slack) * (s.len() as real) <= rd.top,
        s.len() as real <= rd.top,
    ensures
        mean::<L>(s).finite(),
        near(
            rd.of(mean::<L>(s)) * (s.len() as real),
            real_sum(rd.all(s)),
            (rd.slack + rd.slack) * (s.len() as real),
        ),
{
    let xs = rd.all(s);
    let k = rd.slack;
    let n = s.len() as real;
    assert forall|i: int| 0 <= i < s.len() implies rd.shows(#[trigger] s[i], xs[i], 0 as real) by {
        assert(s[i].finite());
    }
    assert forall|i: int| 0 <= i < xs.len() implies sized(#[trigger] xs[i], bound) by {
        assert(s[i].finite());
    }
    assert((bound + 0 as real + k) * n == (bound + k) * n && (0 as real + k) * n == k * n && (bound
        + k) * n == bound * n + k * n) by (nonlinear_arith);
    total_is_the_sum::<L>(rd, s, xs, 0 as real, bound);
    let t = rd.of(total::<L>(s));
    let c = L::count(s.len());
    assert(c.finite() && rd.of(c) == n);
    let q = t / n;
    assert(sized(q, rd.top) && q * n == t) by (nonlinear_arith)
        requires
            q == t / n,
            sized(t, (bound + k) * n),
            (bound + k) * n <= rd.top,
            n >= 1 as real,
            bound >= 0 as real,
            k >= 0 as real,
    {
        assert(q * n == t);
        assert(q <= rd.top);
        assert(q >= -rd.top);
    }
    let m = rd.of(mean::<L>(s));
    assert(near(m * n, q * n, k * n)) by (nonlinear_arith)
        requires
            near(m, q, k),
            n >= 1 as real,
    ;
    assert((k + k) * n == k * n + k * n) by (nonlinear_arith);
}

proof fn root_of_average<L: LinAlg>(
    rd: Reading,
    s: Seq<Scalar>,
    xs: Seq<real>,
    e: real,
    bound: real,
)
    requires
        reads::<L>(rd),
        reads_quotients::<L>(rd),
        reads_roots::<L>(rd),
        s.len() > 0,
        s.len() == xs.len(),
        forall|i: int| 0 <= i < s.len() ==> rd.shows(#[trigger] s[i], xs[i], e),
        forall|i: int| 0 <= i < xs.len() ==> sized(#[trigger] xs[i], bound),
        e >= 0 as real,
        bound >= 0 as real,
        (bound + e + rd.slack) * (s.len() as real) <= rd.top,
        bound + e + rd.slack + rd.slack <= rd.top,
        s.len() as real <= rd.top,
        L::root(L::over(total::<L>(s), L::count(s.len()))).finite(),
    ensures
        ({
            let r = rd.of(L::root(L::over(total::<L>(s), L::count(s.len()))));
            near(
                r * r * (s.len() as real),
                real_sum(xs),
                (e + rd.slack + rd.slack + rd.slack) * (s.len() as real),
            )
        }),
{
    let k = rd.slack;
    let n = s.len() as real;
    total_is_the_sum::<L>(rd, s, xs, e, bound);
    let c = L::count(s.len());
    assert(c.finite() && rd.of(c) == n);
    let t = rd.of(total::<L>(s));
    let q = t / n;
    let most = bound + e + k;
    assert(most * n == bound * n + (e + k) * n) by (nonlinear_arith)
        requires
            most == bound + e + k,
    ;
    assert(q * n == t) by (nonlinear_arith)
        requires
            q == t / n,
            n >= 1 as real,
    ;
    assert(sized(q, most)) by (nonlinear_arith)
        requires
            q * n == t,
            sized(t, most * n),
            n >= 1 as real,
    ;
    let o = L::over(total::<L>(s), c);
    assert(rd.shows(o, q, k));
    let r = rd.of(L::root(o));
    let v = r * r;
    assert(near(v, q, k + k));
    assert(near(v * n, q * n, (k + k) * n)) by (nonlinear_arith)
        requires
            near(v, q, k + k),
            n >= 1 as real,
    ;
    assert((e + k) * n + (k + k) * n == (e + k + k + k) * n) by (nonlinear_arith);
}

/// The root mean square of a list: its square, times the number of entries, is the sum of their
/// squares.
pub proof fn root_mean_square_is_the_mean_of_squares<L: LinAlg>(
    rd: Reading,
    s: Seq<Scalar>,
    bound: real,
)
    requires
        reads::<L>(rd),
        reads_quotients::<L>(rd),
        reads_roots::<L>(rd),
        s.len() > 0,
        forall|i: int|
            0 <= i < s.len() ==> (#[trigger] s[i]).finite() && sized(
                rd.of(s[i]) * rd.of(s[i]),
                bound,
            ),
        bound >= 0 as real,
        (bound + rd.slack + rd.slack) * (s.len() as real) <= rd.top,
        bound + rd.slack + rd.slack + rd.slack <= rd.top,
        s.len() as real <= rd.top,
        root_mean_square::<L>(s).finite(),
    ensures
        ({
            let r = rd.of(root_mean_square::<L>(s));
            near(
                r * r * (s.len() as real),
                real_sum(Seq::new(s.len(), |i: int| rd.of(s[i]) * rd.of(s[i]))),
                (rd.slack + rd.slack + rd.slack + rd.slack) * (s.len() as real),
            )
        }),
{
    let squares = Seq::new(s.len(), |i: int| L::times(s[i], s[i]));
    let xs = Seq::new(s.len(), |i: int| rd.of(s[i]) * rd.of(s[i]));
    assert forall|i: int| 0 <= i < squares.len() implies rd.shows(
        #[trigger] squares[i],
        xs[i],
        rd.slack,
    ) by {
        assert(s[i].finite());
    }
    assert forall|i: int| 0 <= i < xs.len() implies sized(#[trigger] xs[i], bound) by {
        assert(s[i].finite());
    }
    root_of_average::<L>(rd, squares, xs, rd.slack, bound);
}

/// The spread of a list around its average: its square, times the number of entries, is the sum of
/// their squared distances from the average.
pub proof fn spread_is_the_mean_distance<L: LinAlg>(rd: Reading, s: Seq<Scalar>, width: real)
    requires
        reads::<L>(rd),
        reads_quotients::<L>(rd),
        reads_roots::<L>(rd),
        s.len() > 0,
        mean::<L>(s).finite(),
        forall|i: int|
            0 <= i < s.len() ==> (#[trigger] s[i]).finite() && sized(
                rd.of(s[i]) - rd.of(mean::<L>(s)),
                width,
            ),
        width >= 0 as real,
        width <= rd.top,
        ({
            let e = rd.slack * (width + rd.slack) + width * rd.slack + rd.slack;
            &&& (width * width + e + rd.slack) * (s.len() as real) <= rd.top
            &&& width * width + e + rd.slack + rd.slack <= rd.top
        }),
        s.len() as real <= rd.top,
        deviation::<L>(s).finite(),
    ensures
        ({
            let r = rd.of(deviation::<L>(s));
            let center = rd.of(mean::<L>(s));
            let e = rd.slack * (width + rd.slack) + width * rd.slack + rd.slack;
            near(
                r * r * (s.len() as real),
                real_sum(
                    Seq::new(
                        s.len(),
                        |i: int| (rd.of(s[i]) - center) * (rd.of(s[i]) - center),
                    ),
                ),
                (e + rd.slack + rd.slack + rd.slack) * (s.len() as real),
            )
        }),
{
    let k = rd.slack;
    let m = mean::<L>(s);
    let center = rd.of(m);
    let e = k * (width + k) + width * k + k;
    assert(e >= k && width * width >= 0 as real) by (nonlinear_arith)
        requires
            e == k * (width + k) + width * k + k,
            k >= 0 as real,
            width >= 0 as real,
    ;
    let squares = squared_deviations::<L>(s, m);
    let xs = Seq::new(s.len(), |i: int| (rd.of(s[i]) - center) * (rd.of(s[i]) - center));
    assert forall|i: int| 0 <= i < squares.len() implies rd.shows(
        #[trigger] squares[i],
        xs[i],
        e,
    ) && sized(xs[i], width * width) by {
        assert(s[i].finite());
        let d = L::minus(s[i], m);
        let y = rd.of(s[i]) - center;
        assert(rd.shows(d, y, k));
        product_shows::<L>(rd, d, d, y, y, k, k, width, width);
        products_near(y, y, y, y, 0 as real, 0 as real, width, width);
    }
    assert forall|i: int| 0 <= i < xs.len() implies sized(#[trigger] xs[i], width * width) by {
        assert(rd.shows(squares[i], xs[i], e));
    }
    root_of_average::<L>(rd, squares, xs, e, width * width);
}

/// The peak of a list is one of its numbers, and none of them is above it.
pub proof fn peak_is_the_largest(s: Seq<Scalar>)
    requires
        s.len() > 0,
        forall|i: int| 0 <= i < s.len() ==> (#[trigger] s[i]).finite(),
    ensures
        s.contains(peak(s)),
        forall|i: int| 0 <= i < s.len() ==> (#[trigger] s[i]).at_most(peak(s)),
    decreases s.len(),
{
    let rest = s.drop_last();
    assert forall|i: int| 0 <= i < rest.len() implies (#[trigger] rest[i]).finite() by {
        assert(s[i].finite());
    }
    assert(s[s.len() - 1].finite());
    if rest.len() > 0 {
        peak_is_the_largest(rest);
        let k = choose|k: int| 0 <= k < rest.len() && rest[k] == peak(rest);
        assert(s[k] == peak(rest));
        assert forall|i: int| 0 <= i < s.len() implies (#[trigger] s[i]).at_most(peak(s)) by {
            if i < rest.len() {
                assert(rest[i].at_most(peak(rest)));
            }
        }
    } else {
        assert(peak(rest) == (Scalar { bits: NEG_INFINITY_BITS }));
        assert(peak(s) == s.last());
        assert(s[0] == peak(s));
    }
}

/// Exponentials of finite numbers go by `exp`, up to the slack, where the number is not above one;
/// and `exp` moves by no more than `steep` times its argument there.
pub open spec fn reads_exponentials<L: LinAlg>(
    rd: Reading,
    exp: spec_fn(real) -> real,
    steep: real,
) -> bool {
    &&& forall|a: Scalar|
        a.finite() && rd.of(a) <= 1 as real ==> rd.shows(
            #[trigger] L::exponential(a),
            exp(rd.of(a)),
            rd.slack,
        )
    &&& forall|x: real, y: real, e: real|
        x <= 1 as real && y <= 1 as real && near(x, y, e) ==> #[trigger] near(
            exp(x),
            exp(y),
            steep * e,
        )
    &&& forall|x: real| x <= 0 as real ==> sized(#[trigger] exp(x), 1 as real)
}

/// The logarithm of the sum of exponentials is taken from the peak: it lies above the peak by the
/// logarithm of a number that is the sum of the exponentials of the distances from the peak.
pub proof fn log_sum_exp_lies_above_the_peak<L: LinAlg>(
    rd: Reading,
    exp: spec_fn(real) -> real,
    steep: real,
    s: Seq<Scalar>,
    bound: real,
)
    requires
        reads::<L>(rd),
        reads_order(rd),
        reads_exponentials::<L>(rd, exp, steep),
        s.len() > 0,
        rd.bounds(s, bound),
        bound >= 0 as real,
        bound + bound <= rd.top,
        steep >= 0 as real,
        rd.slack <= 1 as real,
        (1 as real + (steep * rd.slack + rd.slack) + rd.slack) * (s.len() as real) <= rd.top,
    ensures
        exists|t: Scalar|
            {
                let n = s.len() as real;
                let p = rd.of(peak(s));
                let e = steep * rd.slack + rd.slack;
                &&& rd.shows(
                    t,
                    real_sum(Seq::new(s.len(), |i: int| exp(rd.of(s[i]) - p))),
                    (e + rd.slack) * n,
                )
                &&& (#[trigger] L::logarithm(t)).finite() && sized(
                    rd.of(L::logarithm(t)) + p,
                    rd.top,
                ) ==> rd.shows(log_sum_exp::<L>(s), rd.of(L::logarithm(t)) + p, rd.slack)
            },
{
    let top = peak(s);
    let k = rd.slack;
    let p = rd.of(top);
    let e = steep * k + k;
    assert forall|i: int| 0 <= i < s.len() implies (#[trigger] s[i]).finite() by {}
    peak_is_the_largest(s);
    let at = choose|j: int| 0 <= j < s.len() && s[j] == top;
    assert(s[at].finite() && sized(p, bound));
    assert(steep * k >= 0 as real) by (nonlinear_arith)
        requires
            steep >= 0 as real,
            k >= 0 as real,
    ;
    let terms = Seq::new(s.len(), |i: int| L::exponential(L::minus(s[i], top)));
    let xs = Seq::new(s.len(), |i: int| exp(rd.of(s[i]) - p));
    assert forall|i: int| 0 <= i < terms.len() implies rd.shows(#[trigger] terms[i], xs[i], e)
        && sized(xs[i], 1 as real) by {
        assert(s[i].finite() && sized(rd.of(s[i]), bound));
        assert(s[i].at_most(top));
        assert(!top.below(s[i]));
        let x = rd.of(s[i]) - p;
        let d = L::minus(s[i], top);
        assert(rd.shows(d, x, k));
        assert(near(exp(rd.of(d)), exp(x), steep * k));
    }
    assert forall|i: int| 0 <= i < xs.len() implies sized(#[trigger] xs[i], 1 as real) by {
        assert(rd.shows(terms[i], xs[i], e));
    }
    total_is_the_sum::<L>(rd, terms, xs, e, 1 as real);
    let t = total::<L>(terms);
    assert(log_sum_exp::<L>(s) == L::plus(L::logarithm(t), top));
}

} // verus!
