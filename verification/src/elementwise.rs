//! Number-by-number updates of the backend's vectors and matrices.

use vstd::prelude::*;

use crate::linalg::{
    rewritten_all, rewritten_row, rewritten_start, rewritten_step, Grid, LinAlg,
};
use crate::reading::{
    difference_shows, product_shows, products_near, reads, reads_order, sized, sum_shows,
    Reading,
};
use crate::scalar::Scalar;

verus! {

/// Bound on weights and on gradients: `5.0`.
pub const CLIP_BITS: u64 = 0x4014_0000_0000_0000;

/// The clipping bound.
#[verifier::allow_in_spec]
pub fn clip() -> Scalar
    returns
        (Scalar { bits: CLIP_BITS }),
{
    Scalar { bits: CLIP_BITS }
}

/// `(1 - rate) * target + rate * live`.
pub open spec fn polyak<L: LinAlg>(target: Scalar, live: Scalar, rate: Scalar) -> Scalar {
    L::plus(L::times(L::minus(Scalar::one(), rate), target), L::times(rate, live))
}

/// `beta * average + (1 - beta) * sample`.
pub open spec fn smoothed<L: LinAlg>(average: Scalar, sample: Scalar, beta: Scalar) -> Scalar {
    L::plus(L::times(beta, average), L::times(L::minus(Scalar::one(), beta), sample))
}

/// `beta * average + (1 - beta) * sample`.
pub fn smooth<L: LinAlg>(average: Scalar, sample: Scalar, beta: Scalar) -> (r: Scalar)
    ensures
        r == smoothed::<L>(average, sample, beta),
{
    L::scalar_add(
        L::scalar_mul(beta, average),
        L::scalar_mul(L::scalar_sub(Scalar::one(), beta), sample),
    )
}

/// A weight drawn back toward its snapshot in proportion to its importance, within the clip.
pub open spec fn drawn_back<L: LinAlg>(
    current: Scalar,
    before: Scalar,
    snapshot: Scalar,
    importance: Scalar,
    rate: Scalar,
    strength: Scalar,
) -> Scalar {
    L::minus(
        current,
        L::times(L::times(L::times(rate, strength), importance), L::minus(before, snapshot)),
    ).clamped(clip().negated(), clip())
}

/// A weight drawn back toward its snapshot in proportion to its importance, within the clip.
pub fn draw_back<L: LinAlg>(
    current: Scalar,
    before: Scalar,
    snapshot: Scalar,
    importance: Scalar,
    rate: Scalar,
    strength: Scalar,
) -> (r: Scalar)
    ensures
        r == drawn_back::<L>(current, before, snapshot, importance, rate, strength),
{
    let pull = L::scalar_mul(
        L::scalar_mul(L::scalar_mul(rate, strength), importance),
        L::scalar_sub(before, snapshot),
    );
    L::scalar_sub(current, pull).clamp(clip().neg(), clip())
}

/// Multiplies every number by `factor`.
pub fn scale_mat<L: LinAlg>(backend: &L, m: &mut L::Matrix, factor: Scalar)
    ensures
        L::grid(*final(m)) == Grid::tabulate(
            L::grid(*old(m)).rows,
            L::grid(*old(m)).cols,
            |r: int, c: int| L::times(L::grid(*old(m)).at(r, c), factor),
        ),
{
    let ghost g0 = L::grid(*m);
    let ghost f = |r: int, c: int| L::times(g0.at(r, c), factor);
    let rows: usize = backend.mat_rows(m);
    let cols: usize = backend.mat_cols(m);
    proof {
        rewritten_start(g0, f);
    }
    let mut r: usize = 0;
    while r < rows
        invariant
            r <= rows,
            rows == g0.rows,
            cols == g0.cols,
            f == (|r: int, c: int| L::times(g0.at(r, c), factor)),
            L::grid(*m) == g0.rewritten(f, r as int, 0),
        decreases rows - r,
    {
        let mut c: usize = 0;
        while c < cols
            invariant
                r < rows,
                c <= cols,
                rows == g0.rows,
                cols == g0.cols,
                f == (|r: int, c: int| L::times(g0.at(r, c), factor)),
                L::grid(*m) == g0.rewritten(f, r as int, c as int),
            decreases cols - c,
        {
            let x = backend.mat_get(m, r, c);
            assert(x == g0.at(r as int, c as int));
            let y = L::scalar_mul(x, factor);
            proof {
                rewritten_step(g0, f, r as int, c as int);
            }
            backend.mat_set(m, r, c, y);
            c = c + 1;
        }
        proof {
            rewritten_row(g0, f, r as int);
        }
        r = r + 1;
    }
    proof {
        rewritten_all(g0, f);
    }
}

/// Multiplies every number by `factor`.
pub fn scale_vec<L: LinAlg>(backend: &L, v: &mut L::Vector, factor: Scalar)
    ensures
        L::seq(*final(v)) == Seq::new(
            L::seq(*old(v)).len(),
            |i: int| L::times(L::seq(*old(v))[i], factor),
        ),
{
    let ghost s0 = L::seq(*v);
    let n: usize = backend.vec_len(v);
    let mut i: usize = 0;
    while i < n
        invariant
            i <= n,
            n == s0.len(),
            L::seq(*v).len() == n,
            forall|j: int| 0 <= j < i ==> (#[trigger] L::seq(*v)[j]) == (L::times(s0[j], factor)),
            forall|j: int| i <= j < n ==> (#[trigger] L::seq(*v)[j]) == s0[j],
        decreases n - i,
    {
        let x = backend.vec_get(v, i);
        let y = L::scalar_mul(x, factor);
        backend.vec_set(v, i, y);
        i = i + 1;
    }
    assert(L::seq(*v) =~= Seq::new(n as nat, |i: int| L::times(s0[i], factor)));
}

/// Adds the corresponding number of `other` to every number.
pub fn accumulate_mat<L: LinAlg>(backend: &L, m: &mut L::Matrix, other: &L::Matrix)
    requires
        L::grid(*old(m)).same_shape(L::grid(*other)),
    ensures
        L::grid(*final(m)) == Grid::tabulate(
            L::grid(*old(m)).rows,
            L::grid(*old(m)).cols,
            |r: int, c: int| L::plus(L::grid(*old(m)).at(r, c), L::grid(*other).at(r, c)),
        ),
{
    let ghost g0 = L::grid(*m);
    let ghost f = |r: int, c: int| L::plus(g0.at(r, c), L::grid(*other).at(r, c));
    let rows: usize = backend.mat_rows(m);
    let cols: usize = backend.mat_cols(m);
    proof {
        rewritten_start(g0, f);
    }
    let mut r: usize = 0;
    while r < rows
        invariant
            r <= rows,
            rows == g0.rows,
            cols == g0.cols,
            f == (|r: int, c: int| L::plus(g0.at(r, c), L::grid(*other).at(r, c))),
            g0.same_shape(L::grid(*other)),
            L::grid(*m) == g0.rewritten(f, r as int, 0),
        decreases rows - r,
    {
        let mut c: usize = 0;
        while c < cols
            invariant
                r < rows,
                c <= cols,
                rows == g0.rows,
                cols == g0.cols,
                f == (|r: int, c: int| L::plus(g0.at(r, c), L::grid(*other).at(r, c))),
                g0.same_shape(L::grid(*other)),
                L::grid(*m) == g0.rewritten(f, r as int, c as int),
            decreases cols - c,
        {
            let x = backend.mat_get(m, r, c);
            assert(x == g0.at(r as int, c as int));
            let o = backend.mat_get(other, r, c);
            let y = L::scalar_add(x, o);
            proof {
                rewritten_step(g0, f, r as int, c as int);
            }
            backend.mat_set(m, r, c, y);
            c = c + 1;
        }
        proof {
            rewritten_row(g0, f, r as int);
        }
        r = r + 1;
    }
    proof {
        rewritten_all(g0, f);
    }
}

/// Adds the corresponding number of `other` to every number.
pub fn accumulate_vec<L: LinAlg>(backend: &L, v: &mut L::Vector, other: &L::Vector)
    requires
        L::seq(*old(v)).len() <= L::seq(*other).len(),
    ensures
        L::seq(*final(v)) == Seq::new(
            L::seq(*old(v)).len(),
            |i: int| L::plus(L::seq(*old(v))[i], L::seq(*other)[i]),
        ),
{
    let ghost s0 = L::seq(*v);
    let n: usize = backend.vec_len(v);
    let mut i: usize = 0;
    while i < n
        invariant
            i <= n,
            n == s0.len(),
            L::seq(*v).len() == n,
            s0.len() <= L::seq(*other).len(),
            forall|j: int| 0 <= j < i
                ==> (#[trigger] L::seq(*v)[j]) == (L::plus(s0[j], L::seq(*other)[j])),
            forall|j: int| i <= j < n ==> (#[trigger] L::seq(*v)[j]) == s0[j],
        decreases n - i,
    {
        let x = backend.vec_get(v, i);
        let o = backend.vec_get(other, i);
        let y = L::scalar_add(x, o);
        backend.vec_set(v, i, y);
        i = i + 1;
    }
    assert(L::seq(*v) =~= Seq::new(n as nat, |i: int| L::plus(s0[i], L::seq(*other)[i])));
}

/// Moves every number toward the corresponding one of `other`.
pub fn blend_mat<L: LinAlg>(backend: &L, m: &mut L::Matrix, other: &L::Matrix, rate: Scalar)
    requires
        L::grid(*old(m)).same_shape(L::grid(*other)),
    ensures
        L::grid(*final(m)) == Grid::tabulate(
            L::grid(*old(m)).rows,
            L::grid(*old(m)).cols,
            |r: int, c: int| polyak::<L>(L::grid(*old(m)).at(r, c), L::grid(*other).at(r, c), rate),
        ),
{
    let ghost g0 = L::grid(*m);
    let ghost f = |r: int, c: int| polyak::<L>(g0.at(r, c), L::grid(*other).at(r, c), rate);
    let rows: usize = backend.mat_rows(m);
    let cols: usize = backend.mat_cols(m);
    proof {
        rewritten_start(g0, f);
    }
    let mut r: usize = 0;
    while r < rows
        invariant
            r <= rows,
            rows == g0.rows,
            cols == g0.cols,
            f == (|r: int, c: int| polyak::<L>(g0.at(r, c), L::grid(*other).at(r, c), rate)),
            g0.same_shape(L::grid(*other)),
            L::grid(*m) == g0.rewritten(f, r as int, 0),
        decreases rows - r,
    {
        let mut c: usize = 0;
        while c < cols
            invariant
                r < rows,
                c <= cols,
                rows == g0.rows,
                cols == g0.cols,
                f == (|r: int, c: int| polyak::<L>(g0.at(r, c), L::grid(*other).at(r, c), rate)),
                g0.same_shape(L::grid(*other)),
                L::grid(*m) == g0.rewritten(f, r as int, c as int),
            decreases cols - c,
        {
            let x = backend.mat_get(m, r, c);
            assert(x == g0.at(r as int, c as int));
            let o = backend.mat_get(other, r, c);
            let y = L::scalar_add(
                L::scalar_mul(L::scalar_sub(Scalar::one(), rate), x),
                L::scalar_mul(rate, o),
            );
            proof {
                rewritten_step(g0, f, r as int, c as int);
            }
            backend.mat_set(m, r, c, y);
            c = c + 1;
        }
        proof {
            rewritten_row(g0, f, r as int);
        }
        r = r + 1;
    }
    proof {
        rewritten_all(g0, f);
    }
}

/// Moves every number toward the corresponding one of `other`.
pub fn blend_vec<L: LinAlg>(backend: &L, v: &mut L::Vector, other: &L::Vector, rate: Scalar)
    requires
        L::seq(*old(v)).len() <= L::seq(*other).len(),
    ensures
        L::seq(*final(v)) == Seq::new(
            L::seq(*old(v)).len(),
            |i: int| polyak::<L>(L::seq(*old(v))[i], L::seq(*other)[i], rate),
        ),
{
    let ghost s0 = L::seq(*v);
    let n: usize = backend.vec_len(v);
    let mut i: usize = 0;
    while i < n
        invariant
            i <= n,
            n == s0.len(),
            L::seq(*v).len() == n,
            s0.len() <= L::seq(*other).len(),
            forall|j: int| 0 <= j < i
                ==> (#[trigger] L::seq(*v)[j]) == (polyak::<L>(s0[j], L::seq(*other)[j], rate)),
            forall|j: int| i <= j < n ==> (#[trigger] L::seq(*v)[j]) == s0[j],
        decreases n - i,
    {
        let x = backend.vec_get(v, i);
        let o = backend.vec_get(other, i);
        let y = L::scalar_add(
            L::scalar_mul(L::scalar_sub(Scalar::one(), rate), x),
            L::scalar_mul(rate, o),
        );
        backend.vec_set(v, i, y);
        i = i + 1;
    }
    assert(L::seq(*v) =~= Seq::new(n as nat, |i: int| polyak::<L>(s0[i], L::seq(*other)[i], rate)));
}

/// Smooths every number with the square of its row's entry in `grad`.
pub fn smooth_squares_mat<L: LinAlg>(backend: &L, m: &mut L::Matrix, grad: &L::Vector, beta: Scalar)
    requires
        L::grid(*old(m)).rows <= L::seq(*grad).len(),
    ensures
        L::grid(*final(m)) == Grid::tabulate(
            L::grid(*old(m)).rows,
            L::grid(*old(m)).cols,
            |r: int, c: int| smoothed::<L>(
                L::grid(*old(m)).at(r, c),
                L::times(L::seq(*grad)[r], L::seq(*grad)[r]),
                beta,
            ),
        ),
{
    let ghost g0 = L::grid(*m);
    let ghost f = |r: int, c: int| smoothed::<L>(
        g0.at(r, c),
        L::times(L::seq(*grad)[r], L::seq(*grad)[r]),
        beta,
    );
    let rows: usize = backend.mat_rows(m);
    let cols: usize = backend.mat_cols(m);
    proof {
        rewritten_start(g0, f);
    }
    let mut r: usize = 0;
    while r < rows
        invariant
            r <= rows,
            rows == g0.rows,
            cols == g0.cols,
            f == (|r: int, c: int| smoothed::<L>(
                g0.at(r, c),
                L::times(L::seq(*grad)[r], L::seq(*grad)[r]),
                beta,
            )),
            g0.rows <= L::seq(*grad).len(),
            L::grid(*m) == g0.rewritten(f, r as int, 0),
        decreases rows - r,
    {
        let mut c: usize = 0;
        while c < cols
            invariant
                r < rows,
                c <= cols,
                rows == g0.rows,
                cols == g0.cols,
                f == (|r: int, c: int| smoothed::<L>(
                    g0.at(r, c),
                    L::times(L::seq(*grad)[r], L::seq(*grad)[r]),
                    beta,
                )),
                g0.rows <= L::seq(*grad).len(),
                L::grid(*m) == g0.rewritten(f, r as int, c as int),
            decreases cols - c,
        {
            let x = backend.mat_get(m, r, c);
            assert(x == g0.at(r as int, c as int));
            let g = backend.vec_get(grad, r);
            let y = smooth::<L>(x, L::scalar_mul(g, g), beta);
            proof {
                rewritten_step(g0, f, r as int, c as int);
            }
            backend.mat_set(m, r, c, y);
            c = c + 1;
        }
        proof {
            rewritten_row(g0, f, r as int);
        }
        r = r + 1;
    }
    proof {
        rewritten_all(g0, f);
    }
}

/// Smooths every number with the square of the corresponding entry of `grad`.
pub fn smooth_squares_vec<L: LinAlg>(backend: &L, v: &mut L::Vector, grad: &L::Vector, beta: Scalar)
    requires
        L::seq(*old(v)).len() <= L::seq(*grad).len(),
    ensures
        L::seq(*final(v)) == Seq::new(
            L::seq(*old(v)).len(),
            |i: int| smoothed::<L>(
                L::seq(*old(v))[i],
                L::times(L::seq(*grad)[i], L::seq(*grad)[i]),
                beta,
            ),
        ),
{
    let ghost s0 = L::seq(*v);
    let n: usize = backend.vec_len(v);
    let mut i: usize = 0;
    while i < n
        invariant
            i <= n,
            n == s0.len(),
            L::seq(*v).len() == n,
            s0.len() <= L::seq(*grad).len(),
            forall|j: int| 0 <= j < i
                ==> (#[trigger] L::seq(*v)[j]) == (smoothed::<L>(
                    s0[j],
                    L::times(L::seq(*grad)[j], L::seq(*grad)[j]),
                    beta,
                )),
            forall|j: int| i <= j < n ==> (#[trigger] L::seq(*v)[j]) == s0[j],
        decreases n - i,
    {
        let x = backend.vec_get(v, i);
        let g = backend.vec_get(grad, i);
        let y = smooth::<L>(x, L::scalar_mul(g, g), beta);
        backend.vec_set(v, i, y);
        i = i + 1;
    }
    assert(
        L::seq(*v) =~= Seq::new(
            n as nat,
            |i: int| smoothed::<L>(s0[i], L::times(L::seq(*grad)[i], L::seq(*grad)[i]), beta),
        )
    );
}

/// Draws every number back toward its snapshot.
pub fn draw_back_mat<L: LinAlg>(
    backend: &L,
    m: &mut L::Matrix,
    before: &L::Matrix,
    snapshot: &L::Matrix,
    importance: &L::Matrix,
    rate: Scalar,
    strength: Scalar,
)
    requires
        L::grid(*old(m)).same_shape(L::grid(*before)),
        L::grid(*old(m)).same_shape(L::grid(*snapshot)),
        L::grid(*old(m)).same_shape(L::grid(*importance)),
    ensures
        L::grid(*final(m)) == Grid::tabulate(
            L::grid(*old(m)).rows,
            L::grid(*old(m)).cols,
            |r: int, c: int| drawn_back::<L>(
                L::grid(*old(m)).at(r, c),
                L::grid(*before).at(r, c),
                L::grid(*snapshot).at(r, c),
                L::grid(*importance).at(r, c),
                rate,
                strength,
            ),
        ),
{
    let ghost g0 = L::grid(*m);
    let ghost f = |r: int, c: int| drawn_back::<L>(
        g0.at(r, c),
        L::grid(*before).at(r, c),
        L::grid(*snapshot).at(r, c),
        L::grid(*importance).at(r, c),
        rate,
        strength,
    );
    let rows: usize = backend.mat_rows(m);
    let cols: usize = backend.mat_cols(m);
    proof {
        rewritten_start(g0, f);
    }
    let mut r: usize = 0;
    while r < rows
        invariant
            r <= rows,
            rows == g0.rows,
            cols == g0.cols,
            f == (|r: int, c: int| drawn_back::<L>(
                g0.at(r, c),
                L::grid(*before).at(r, c),
                L::grid(*snapshot).at(r, c),
                L::grid(*importance).at(r, c),
                rate,
                strength,
            )),
            g0.same_shape(L::grid(*before)),
            g0.same_shape(L::grid(*snapshot)),
            g0.same_shape(L::grid(*importance)),
            L::grid(*m) == g0.rewritten(f, r as int, 0),
        decreases rows - r,
    {
        let mut c: usize = 0;
        while c < cols
            invariant
                r < rows,
                c <= cols,
                rows == g0.rows,
                cols == g0.cols,
                f == (|r: int, c: int| drawn_back::<L>(
                    g0.at(r, c),
                    L::grid(*before).at(r, c),
                    L::grid(*snapshot).at(r, c),
                    L::grid(*importance).at(r, c),
                    rate,
                    strength,
                )),
                g0.same_shape(L::grid(*before)),
                g0.same_shape(L::grid(*snapshot)),
                g0.same_shape(L::grid(*importance)),
                L::grid(*m) == g0.rewritten(f, r as int, c as int),
            decreases cols - c,
        {
            let x = backend.mat_get(m, r, c);
            assert(x == g0.at(r as int, c as int));
            let b = backend.mat_get(before, r, c);
            let s = backend.mat_get(snapshot, r, c);
            let f_rc = backend.mat_get(importance, r, c);
            let y = draw_back::<L>(x, b, s, f_rc, rate, strength);
            proof {
                rewritten_step(g0, f, r as int, c as int);
            }
            backend.mat_set(m, r, c, y);
            c = c + 1;
        }
        proof {
            rewritten_row(g0, f, r as int);
        }
        r = r + 1;
    }
    proof {
        rewritten_all(g0, f);
    }
}

/// Draws every number back toward its snapshot.
pub fn draw_back_vec<L: LinAlg>(
    backend: &L,
    v: &mut L::Vector,
    before: &L::Vector,
    snapshot: &L::Vector,
    importance: &L::Vector,
    rate: Scalar,
    strength: Scalar,
)
    requires
        L::seq(*old(v)).len() <= L::seq(*before).len(),
        L::seq(*old(v)).len() <= L::seq(*snapshot).len(),
        L::seq(*old(v)).len() <= L::seq(*importance).len(),
    ensures
        L::seq(*final(v)) == Seq::new(
            L::seq(*old(v)).len(),
            |i: int| drawn_back::<L>(
                L::seq(*old(v))[i],
                L::seq(*before)[i],
                L::seq(*snapshot)[i],
                L::seq(*importance)[i],
                rate,
                strength,
            ),
        ),
{
    let ghost s0 = L::seq(*v);
    let n: usize = backend.vec_len(v);
    let mut i: usize = 0;
    while i < n
        invariant
            i <= n,
            n == s0.len(),
            L::seq(*v).len() == n,
            s0.len() <= L::seq(*before).len(),
            s0.len() <= L::seq(*snapshot).len(),
            s0.len() <= L::seq(*importance).len(),
            forall|j: int| 0 <= j < i
                ==> (#[trigger] L::seq(*v)[j]) == (drawn_back::<L>(
                    s0[j],
                    L::seq(*before)[j],
                    L::seq(*snapshot)[j],
                    L::seq(*importance)[j],
                    rate,
                    strength,
                )),
            forall|j: int| i <= j < n ==> (#[trigger] L::seq(*v)[j]) == s0[j],
        decreases n - i,
    {
        let x = backend.vec_get(v, i);
        let b = backend.vec_get(before, i);
        let s = backend.vec_get(snapshot, i);
        let f_i = backend.vec_get(importance, i);
        let y = draw_back::<L>(x, b, s, f_i, rate, strength);
        backend.vec_set(v, i, y);
        i = i + 1;
    }
    assert(
        L::seq(*v) =~= Seq::new(
            n as nat,
            |i: int| drawn_back::<L>(
                s0[i],
                L::seq(*before)[i],
                L::seq(*snapshot)[i],
                L::seq(*importance)[i],
                rate,
                strength,
            ),
        )
    );
}

/// A number that follows another moves the given share of the way: at a rate of zero it stays, at
/// a rate of one it arrives.
pub proof fn following_moves_a_share_of_the_way<L: LinAlg>(
    rd: Reading,
    target: Scalar,
    live: Scalar,
    rate: Scalar,
    bound: real,
)
    requires
        reads::<L>(rd),
        target.finite(),
        live.finite(),
        rate.finite(),
        0 as real <= rd.of(rate) <= 1 as real,
        sized(rd.of(target), bound),
        sized(rd.of(live), bound),
        bound >= 0 as real,
        1 as real <= rd.top,
        bound + bound + bound * rd.slack + rd.slack + rd.slack <= rd.top,
    ensures
        rd.shows(
            polyak::<L>(target, live, rate),
            rd.of(target) + rd.of(rate) * (rd.of(live) - rd.of(target)),
            bound * rd.slack + rd.slack + rd.slack + rd.slack,
        ),
{
    let t = rd.of(target);
    let l = rd.of(live);
    let r = rd.of(rate);
    let s = rd.slack;
    let rest = 1 as real - r;
    let keep = L::minus(Scalar::one(), rate);
    assert(rd.shows(keep, rest, s));
    assert(s * (bound + 0 as real) + (1 as real) * (0 as real) == bound * s && (1 as real) * bound
        == bound && bound * s >= 0 as real && sized(r * l, bound) && sized(rest * t, bound) && rest
        * t + r * l == t + r * (l - t) && sized(t + r * (l - t), bound)) by (nonlinear_arith)
        requires
            0 as real <= r <= 1 as real,
            rest == 1 as real - r,
            sized(t, bound),
            sized(l, bound),
            bound >= 0 as real,
            s >= 0 as real,
    ;
    product_shows::<L>(rd, keep, target, rest, t, s, 0 as real, 1 as real, bound);
    assert(rd.shows(L::times(rate, live), r * l, s));
    sum_shows::<L>(
        rd,
        L::times(keep, target),
        L::times(rate, live),
        rest * t,
        r * l,
        bound * s + s,
        s,
    );
}

/// A smoothed number keeps the given share of itself and takes the rest from the sample: at a
/// share of one it stays, at a share of zero it is the sample.
pub proof fn smoothing_keeps_a_share<L: LinAlg>(
    rd: Reading,
    average: Scalar,
    sample: Scalar,
    beta: Scalar,
    x: real,
    e: real,
    bound: real,
)
    requires
        reads::<L>(rd),
        average.finite(),
        rd.shows(sample, x, e),
        e >= 0 as real,
        beta.finite(),
        0 as real <= rd.of(beta) <= 1 as real,
        sized(rd.of(average), bound),
        sized(x, bound),
        bound >= 0 as real,
        1 as real <= rd.top,
        bound + bound + rd.slack * (bound + e) + e + rd.slack + rd.slack <= rd.top,
    ensures
        rd.shows(
            smoothed::<L>(average, sample, beta),
            rd.of(beta) * rd.of(average) + (1 as real - rd.of(beta)) * x,
            rd.slack * (bound + e) + e + rd.slack + rd.slack + rd.slack,
        ),
{
    let a = rd.of(average);
    let b = rd.of(beta);
    let s = rd.slack;
    let rest = 1 as real - b;
    let take = L::minus(Scalar::one(), beta);
    assert(rd.shows(take, rest, s));
    assert(sized(b * a, bound) && sized(rest * x, bound) && sized(b * a + rest * x, bound)
        && (1 as real) * bound == bound && (1 as real) * e == e && s * (bound + e) >= 0 as real)
        by (nonlinear_arith)
        requires
            0 as real <= b <= 1 as real,
            rest == 1 as real - b,
            sized(a, bound),
            sized(x, bound),
            bound >= 0 as real,
            e >= 0 as real,
            s >= 0 as real,
    ;
    product_shows::<L>(rd, take, sample, rest, x, s, e, 1 as real, bound);
    assert(rd.shows(L::times(beta, average), b * a, s));
    sum_shows::<L>(
        rd,
        L::times(beta, average),
        L::times(take, sample),
        b * a,
        rest * x,
        s,
        s * (bound + e) + e + s,
    );
}

/// A weight is drawn back toward its snapshot by learning rate times strength times importance
/// times its distance from there before the step, wherever the result is within the clip: a weight
/// of no importance, or at its snapshot, is left alone.
pub proof fn weights_are_drawn_toward_their_snapshots<L: LinAlg>(
    rd: Reading,
    current: Scalar,
    before: Scalar,
    snapshot: Scalar,
    importance: Scalar,
    rate: Scalar,
    strength: Scalar,
    bound: real,
    off: real,
)
    requires
        reads::<L>(rd),
        reads_order(rd),
        current.finite(),
        before.finite(),
        snapshot.finite(),
        importance.finite(),
        rate.finite(),
        strength.finite(),
        sized(rd.of(current), bound),
        sized(rd.of(before) - rd.of(snapshot), bound),
        sized(rd.of(importance), bound),
        sized(rd.of(rate) * rd.of(strength), 1 as real),
        bound >= 1 as real,
        off == (rd.slack * bound + rd.slack) * (bound + rd.slack) + bound * rd.slack + rd.slack
            + rd.slack,
        bound + bound * bound + bound * bound + off <= rd.top,
        sized(
            rd.of(current) - rd.of(rate) * rd.of(strength) * rd.of(importance) * (rd.of(before)
                - rd.of(snapshot)),
            rd.of(clip()) - off,
        ),
    ensures
        rd.shows(
            drawn_back::<L>(current, before, snapshot, importance, rate, strength),
            rd.of(current) - rd.of(rate) * rd.of(strength) * rd.of(importance) * (rd.of(before)
                - rd.of(snapshot)),
            off,
        ),
{
    let s = rd.slack;
    let a = rd.of(rate) * rd.of(strength);
    let f = rd.of(importance);
    let d = rd.of(before) - rd.of(snapshot);
    let c = rd.of(current);
    assert(clip().finite() && clip().negated().finite());
    assert(bound * bound >= bound && s * bound >= 0 as real && (s * bound + s) * (bound + s)
        >= 0 as real && bound * s >= 0 as real && (1 as real) * bound == bound && s * (bound
        + 0 as real) + (1 as real) * (0 as real) == s * bound) by (nonlinear_arith)
        requires
            bound >= 1 as real,
            s >= 0 as real,
    ;
    assert(s * bound <= (s * bound + s) * (bound + s)) by (nonlinear_arith)
        requires
            bound >= 1 as real,
            s >= 0 as real,
    ;
    let w = L::times(rate, strength);
    assert(rd.shows(w, a, s));
    product_shows::<L>(rd, w, importance, a, f, s, 0 as real, 1 as real, bound);
    products_near(a, f, a, f, 0 as real, 0 as real, 1 as real, bound);
    let u = L::times(w, importance);
    let gap = L::minus(before, snapshot);
    assert(rd.shows(gap, d, s));
    product_shows::<L>(rd, u, gap, a * f, d, s * bound + s, s, bound, bound);
    products_near(a * f, d, a * f, d, 0 as real, 0 as real, bound, bound);
    let pull = L::times(u, gap);
    assert(rd.shows(pull, a * f * d, (s * bound + s) * (bound + s) + bound * s + s));
    let moved = L::minus(current, pull);
    difference_shows::<L>(
        rd,
        current,
        pull,
        c,
        a * f * d,
        0 as real,
        (s * bound + s) * (bound + s) + bound * s + s,
    );
    assert(rd.shows(moved, c - a * f * d, off));
    assert(!moved.below(clip().negated()));
    assert(!clip().below(moved));
}

} // verus!
