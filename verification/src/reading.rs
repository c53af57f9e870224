//! Numbers read as reals, and what it takes for arithmetic to go by what the numbers mean.

use vstd::prelude::*;

use crate::linalg::LinAlg;
use crate::scalar::Scalar;

verus! {

/// A way to read numbers: what each finite number means, up to which size results are held to
/// their meaning, and by how much a single operation may be off.
pub struct Reading {
    /// What a finite number means.
    pub meaning: spec_fn(Scalar) -> real,
    /// Largest result that is held to its meaning.
    pub top: real,
    /// How far a single operation may be off.
    pub slack: real,
}

/// `a` is `b`, up to `e`.
pub open spec fn near(a: real, b: real, e: real) -> bool {
    b - e <= a <= b + e
}

/// `x` is between `-bound` and `bound`.
pub open spec fn sized(x: real, bound: real) -> bool {
    -bound <= x <= bound
}

/// `x` multiplied with itself `n` times.
pub open spec fn real_pow(x: real, n: nat) -> real
    decreases n,
{
    if n == 0 {
        1 as real
    } else {
        x * real_pow(x, (n - 1) as nat)
    }
}

impl Reading {
    /// What a number means.
    pub open spec fn of(self, a: Scalar) -> real {
        (self.meaning)(a)
    }

    /// What the numbers of a list mean.
    pub open spec fn all(self, s: Seq<Scalar>) -> Seq<real> {
        Seq::new(s.len(), |i: int| self.of(s[i]))
    }

    /// A finite number that means `x`, up to `e`.
    pub open spec fn shows(self, a: Scalar, x: real, e: real) -> bool {
        a.finite() && near(self.of(a), x, e)
    }

    /// Finite numbers that mean nothing larger than `bound`.
    pub open spec fn bounds(self, s: Seq<Scalar>, bound: real) -> bool {
        forall|i: int|
            0 <= i < s.len() ==> (#[trigger] s[i]).finite() && sized(self.of(s[i]), bound)
    }
}

/// Sums, differences, products and powers of finite numbers go by what the numbers mean, up to
/// the slack, wherever the result is not too large. Rounding to the nearest double does so, with
/// a slack of `top * 2^-53` for the first three.
pub open spec fn reads<L: LinAlg>(rd: Reading) -> bool {
    &&& rd.slack >= 0 as real
    &&& rd.of(Scalar::zero()) == 0 as real
    &&& rd.of(Scalar::one()) == 1 as real
    &&& forall|a: Scalar, b: Scalar|
        a.finite() && b.finite() && sized(rd.of(a) + rd.of(b), rd.top) ==> rd.shows(
            #[trigger] L::plus(a, b),
            rd.of(a) + rd.of(b),
            rd.slack,
        )
    &&& forall|a: Scalar, b: Scalar|
        a.finite() && b.finite() && sized(rd.of(a) - rd.of(b), rd.top) ==> rd.shows(
            #[trigger] L::minus(a, b),
            rd.of(a) - rd.of(b),
            rd.slack,
        )
    &&& forall|a: Scalar, b: Scalar|
        a.finite() && b.finite() && sized(rd.of(a) * rd.of(b), rd.top) ==> rd.shows(
            #[trigger] L::times(a, b),
            rd.of(a) * rd.of(b),
            rd.slack,
        )
    &&& forall|a: Scalar, n: nat|
        a.finite() && sized(real_pow(rd.of(a), n), rd.top) ==> rd.shows(
            #[trigger] L::power(a, n),
            real_pow(rd.of(a), n),
            rd.slack,
        )
}

/// Finite numbers are in the order of what they mean, and turning a number round turns its
/// meaning round.
pub open spec fn reads_order(rd: Reading) -> bool {
    &&& forall|a: Scalar, b: Scalar|
        a.finite() && b.finite() ==> (#[trigger] a.below(b) <==> rd.of(a) < rd.of(b))
    &&& forall|a: Scalar| a.finite() ==> rd.of(#[trigger] a.negated()) == -rd.of(a)
}

/// A sum of two numbers that are known up to `e` and `f`.
pub proof fn sum_shows<L: LinAlg>(
    rd: Reading,
    a: Scalar,
    b: Scalar,
    x: real,
    y: real,
    e: real,
    f: real,
)
    requires
        reads::<L>(rd),
        rd.shows(a, x, e),
        rd.shows(b, y, f),
        sized(x + y, rd.top - e - f),
    ensures
        rd.shows(L::plus(a, b), x + y, e + f + rd.slack),
{
}

/// A difference of two numbers that are known up to `e` and `f`.
pub proof fn difference_shows<L: LinAlg>(
    rd: Reading,
    a: Scalar,
    b: Scalar,
    x: real,
    y: real,
    e: real,
    f: real,
)
    requires
        reads::<L>(rd),
        rd.shows(a, x, e),
        rd.shows(b, y, f),
        sized(x - y, rd.top - e - f),
    ensures
        rd.shows(L::minus(a, b), x - y, e + f + rd.slack),
{
}

/// The distance of two products whose factors are near each other.
pub proof fn products_near(a: real, b: real, x: real, y: real, e: real, f: real, p: real, q: real)
    by (nonlinear_arith)
    requires
        near(a, x, e),
        near(b, y, f),
        sized(x, p),
        sized(y, q),
        e >= 0 as real,
        f >= 0 as real,
        p >= 0 as real,
        q >= 0 as real,
    ensures
        near(a * b, x * y, e * (q + f) + p * f),
        sized(x * y, p * q),
{
    let d = a - x;
    let g = b - y;
    assert(sized(b, q + f));
    assert(sized(d * b, e * (q + f)));
    assert(sized(x * g, p * f));
    assert(a * b == x * y + d * b + x * g);
}

/// A product of two numbers that are known up to `e` and `f`, and no larger than `p` and `q`.
pub proof fn product_shows<L: LinAlg>(
    rd: Reading,
    a: Scalar,
    b: Scalar,
    x: real,
    y: real,
    e: real,
    f: real,
    p: real,
    q: real,
)
    requires
        reads::<L>(rd),
        rd.shows(a, x, e),
        rd.shows(b, y, f),
        sized(x, p),
        sized(y, q),
        e >= 0 as real,
        f >= 0 as real,
        p >= 0 as real,
        q >= 0 as real,
        p * q + e * (q + f) + p * f <= rd.top,
    ensures
        rd.shows(L::times(a, b), x * y, e * (q + f) + p * f + rd.slack),
{
    products_near(rd.of(a), rd.of(b), x, y, e, f, p, q);
}

/// A power of a number between zero and one is between zero and one.
pub proof fn powers_stay_small(x: real, n: nat)
    requires
        0 as real <= x <= 1 as real,
    ensures
        0 as real <= real_pow(x, n) <= 1 as real,
    decreases n,
{
    if n > 0 {
        powers_stay_small(x, (n - 1) as nat);
        let p = real_pow(x, (n - 1) as nat);
        assert(0 as real <= x * p <= 1 as real) by (nonlinear_arith)
            requires
                0 as real <= x <= 1 as real,
                0 as real <= p <= 1 as real,
        ;
    }
}

/// Quotients of finite numbers go by what the numbers mean, up to the slack, wherever the result
/// is not too large, and counts that are not too large mean themselves.
pub open spec fn reads_quotients<L: LinAlg>(rd: Reading) -> bool {
    &&& forall|a: Scalar, b: Scalar|
        a.finite() && b.finite() && rd.of(b) > 0 as real && sized(rd.of(a) / rd.of(b), rd.top)
            ==> rd.shows(#[trigger] L::over(a, b), rd.of(a) / rd.of(b), rd.slack)
    &&& forall|n: nat|
        n as real <= rd.top ==> (#[trigger] L::count(n)).finite() && rd.of(L::count(n))
            == n as real
}

/// A square root that is finite, taken twice as a factor, gives the number back, up to the slack.
pub open spec fn reads_roots<L: LinAlg>(rd: Reading) -> bool {
    forall|a: Scalar|
        a.finite() && sized(rd.of(a), rd.top) && (#[trigger] L::root(a)).finite() ==> near(
            rd.of(L::root(a)) * rd.of(L::root(a)),
            rd.of(a),
            rd.slack,
        )
}

/// The least whole number not below a number: it is not below, and one less is.
pub open spec fn reads_ceilings<L: LinAlg>(rd: Reading) -> bool {
    forall|a: Scalar|
        a.finite() && 0 as real <= rd.of(a) <= rd.top ==> rd.of(a) <= (#[trigger] L::ceiling(a)
            as int as real) < rd.of(a) + 1 as real
}

/// The sum of a list.
pub open spec fn real_sum(xs: Seq<real>) -> real
    decreases xs.len(),
{
    if xs.len() == 0 {
        0 as real
    } else {
        real_sum(xs.drop_last()) + xs.last()
    }
}

/// A sum of `n` entries that are no larger than `bound` is no larger than `n` times `bound`.
pub proof fn sums_are_sized(xs: Seq<real>, bound: real)
    requires
        bound >= 0 as real,
        forall|i: int| 0 <= i < xs.len() ==> sized(#[trigger] xs[i], bound),
    ensures
        sized(real_sum(xs), bound * (xs.len() as real)),
    decreases xs.len(),
{
    if xs.len() > 0 {
        let front = xs.drop_last();
        assert forall|i: int| 0 <= i < front.len() implies sized(#[trigger] front[i], bound) by {
            assert(sized(xs[i], bound));
        }
        sums_are_sized(front, bound);
        assert(sized(xs[xs.len() - 1], bound));
        let m = front.len() as real;
        assert(xs.len() as real == m + 1 as real);
        assert(bound * m + bound == bound * (m + 1 as real)) by (nonlinear_arith);
    } else {
        assert(bound * (0 as real) == 0 as real) by (nonlinear_arith);
    }
}

} // verus!
