//! The numeric backend that an agent is generic over, and what its matrices hold.

use vstd::prelude::*;

use crate::networks::Activation;
use crate::scalar::Scalar;

verus! {

/// A rectangle of numbers: what a matrix holds.
#[verifier::ext_equal]
pub struct Grid {
    /// Number of rows.
    pub rows: nat,
    /// Number of columns.
    pub cols: nat,
    /// The rows, top to bottom.
    pub cells: Seq<Seq<Scalar>>,
}

impl Grid {
    /// Every row is there and has its full length.
    pub open spec fn rectangular(self) -> bool {
        &&& self.cells.len() == self.rows
        &&& forall|r: int| 0 <= r < self.rows ==> (#[trigger] self.cells[r]).len() == self.cols
    }

    /// The number in row `r` and column `c`.
    pub open spec fn at(self, r: int, c: int) -> Scalar {
        self.cells[r][c]
    }

    /// The same rectangle with one number replaced.
    pub open spec fn put(self, r: int, c: int, v: Scalar) -> Grid {
        Grid { cells: self.cells.update(r, self.cells[r].update(c, v)), ..self }
    }

    /// A rectangle whose numbers are given by position.
    pub open spec fn tabulate(rows: nat, cols: nat, f: spec_fn(int, int) -> Scalar) -> Grid {
        Grid { rows, cols, cells: Seq::new(rows, |r: int| Seq::new(cols, |c: int| f(r, c))) }
    }

    /// A rectangle of zeros.
    pub open spec fn zeros(rows: nat, cols: nat) -> Grid {
        Grid::tabulate(rows, cols, |r: int, c: int| Scalar::zero())
    }

    /// Rows and columns exchanged.
    pub open spec fn transposed(self) -> Grid {
        Grid::tabulate(self.cols, self.rows, |r: int, c: int| self.at(c, r))
    }

    /// The same numbers of rows and columns.
    pub open spec fn same_shape(self, other: Grid) -> bool {
        self.rows == other.rows && self.cols == other.cols
    }

    /// The rectangle with the cells before position `(r, c)`, in reading order, given by `f`.
    pub open spec fn rewritten(self, f: spec_fn(int, int) -> Scalar, r: int, c: int) -> Grid {
        Grid::tabulate(
            self.rows,
            self.cols,
            |i: int, j: int| if i < r || (i == r && j < c) { f(i, j) } else { self.at(i, j) },
        )
    }
}

/// Nothing is rewritten before the first position.
pub proof fn rewritten_start(g: Grid, f: spec_fn(int, int) -> Scalar)
    requires
        g.rectangular(),
    ensures
        g.rewritten(f, 0, 0) == g,
{
    let h = g.rewritten(f, 0, 0);
    assert forall|r: int| 0 <= r < g.rows implies h.cells[r] == g.cells[r] by {
        assert(h.cells[r] =~= g.cells[r]);
    }
    assert(h.cells =~= g.cells);
}

/// Writing the cell at a position moves the boundary past it.
pub proof fn rewritten_step(g: Grid, f: spec_fn(int, int) -> Scalar, r: int, c: int)
    requires
        0 <= r < g.rows,
        0 <= c < g.cols,
    ensures
        g.rewritten(f, r, c).put(r, c, f(r, c)) == g.rewritten(f, r, c + 1),
{
    let a = g.rewritten(f, r, c).put(r, c, f(r, c));
    let b = g.rewritten(f, r, c + 1);
    assert forall|i: int| 0 <= i < g.rows implies a.cells[i] == b.cells[i] by {
        assert(a.cells[i] =~= b.cells[i]);
    }
    assert(a.cells =~= b.cells);
}

/// The end of one row is the start of the next.
pub proof fn rewritten_row(g: Grid, f: spec_fn(int, int) -> Scalar, r: int)
    ensures
        g.rewritten(f, r, g.cols as int) == g.rewritten(f, r + 1, 0),
{
    let a = g.rewritten(f, r, g.cols as int);
    let b = g.rewritten(f, r + 1, 0);
    assert forall|i: int| 0 <= i < g.rows implies a.cells[i] == b.cells[i] by {
        assert(a.cells[i] =~= b.cells[i]);
    }
    assert(a.cells =~= b.cells);
}

/// Past the last row every cell is given by `f`.
pub proof fn rewritten_all(g: Grid, f: spec_fn(int, int) -> Scalar)
    ensures
        g.rewritten(f, g.rows as int, 0) == Grid::tabulate(g.rows, g.cols, f),
{
    let a = g.rewritten(f, g.rows as int, 0);
    let b = Grid::tabulate(g.rows, g.cols, f);
    assert forall|i: int| 0 <= i < g.rows implies a.cells[i] == b.cells[i] by {
        assert(a.cells[i] =~= b.cells[i]);
    }
    assert(a.cells =~= b.cells);
}

/// A run of zeros.
pub open spec fn zero_seq(n: nat) -> Seq<Scalar> {
    Seq::new(n, |i: int| Scalar::zero())
}

/// The entries of a vector, as a signature outside proofs can name them.
pub type Entries = Seq<Scalar>;

/// Positions in a vector, as a signature outside proofs can name them.
pub type Positions = Seq<usize>;

/// The characters of a text, as a signature outside proofs can name them.
pub type Letters = Seq<char>;

/// A whole number, as a signature outside proofs can name it.
pub type Whole = nat;

/// A numeric backend: vectors, matrices and the arithmetic on their entries.
///
/// Arithmetic results are functions of the operands alone. The backend names each such
/// function and every method returns its value; nothing else is assumed of it, so the
/// contracts of this crate hold for any rounding. A backend over machine doubles has to
/// return one fixed NaN wherever a result is NaN. The naming functions are never run: a
/// backend written without proofs may leave their bodies unreachable.
pub trait LinAlg: Sized {
    /// Vectors of the backend.
    type Vector;

    /// Matrices of the backend.
    type Matrix;

    /// The entries of a vector.
    spec fn seq(v: Self::Vector) -> Seq<Scalar>;

    /// The entries of a matrix.
    spec fn grid(m: Self::Matrix) -> Grid;

    /// The value of `a + b`.
    spec fn plus(a: Scalar, b: Scalar) -> Scalar;

    /// The value of `a - b`.
    spec fn minus(a: Scalar, b: Scalar) -> Scalar;

    /// The value of `a * b`.
    spec fn times(a: Scalar, b: Scalar) -> Scalar;

    /// The value of `a / b`.
    spec fn over(a: Scalar, b: Scalar) -> Scalar;

    /// The value of the square root of `a`.
    spec fn root(a: Scalar) -> Scalar;

    /// The value of `e` to the power `a`.
    spec fn exponential(a: Scalar) -> Scalar;

    /// The value of the natural logarithm of `a`.
    spec fn logarithm(a: Scalar) -> Scalar;

    /// The value of `a` to the whole power `n`.
    spec fn power(a: Scalar, n: nat) -> Scalar;

    /// The number nearest to the count `n`.
    spec fn count(n: nat) -> Scalar;

    /// The least whole number not below `a`, saturated to 64 bits.
    spec fn ceiling(a: Scalar) -> u64;

    /// The decimal text of `a`.
    spec fn text(a: Scalar) -> Seq<char>;

    /// The softmax of `v` over the positions in `valid`, zero elsewhere.
    spec fn softmax(v: Seq<Scalar>, valid: Seq<usize>) -> Seq<Scalar>;

    /// The derivative of an activation function, from the outputs it gave.
    spec fn slope(v: Seq<Scalar>, activation: Activation) -> Seq<Scalar>;

    /// The product of a matrix and a vector.
    spec fn product(m: Grid, v: Seq<Scalar>) -> Seq<Scalar>;

    /// `a + b`.
    fn scalar_add(a: Scalar, b: Scalar) -> (r: Scalar)
        ensures
            r == Self::plus(a, b),
    ;

    /// `a - b`.
    fn scalar_sub(a: Scalar, b: Scalar) -> (r: Scalar)
        ensures
            r == Self::minus(a, b),
    ;

    /// `a * b`.
    fn scalar_mul(a: Scalar, b: Scalar) -> (r: Scalar)
        ensures
            r == Self::times(a, b),
    ;

    /// `a / b`.
    fn scalar_div(a: Scalar, b: Scalar) -> (r: Scalar)
        ensures
            r == Self::over(a, b),
    ;

    /// The square root of `a`.
    fn scalar_sqrt(a: Scalar) -> (r: Scalar)
        ensures
            r == Self::root(a),
    ;

    /// `e` to the power `a`.
    fn scalar_exp(a: Scalar) -> (r: Scalar)
        ensures
            r == Self::exponential(a),
    ;

    /// The natural logarithm of `a`.
    fn scalar_ln(a: Scalar) -> (r: Scalar)
        ensures
            r == Self::logarithm(a),
    ;

    /// `a` to the whole power `n`.
    fn scalar_powi(a: Scalar, n: usize) -> (r: Scalar)
        ensures
            r == Self::power(a, n as nat),
    ;

    /// The count `n` as a number.
    fn scalar_from_count(n: u64) -> (r: Scalar)
        ensures
            r == Self::count(n as nat),
    ;

    /// The least whole number not below `a`.
    fn scalar_ceil(a: Scalar) -> (r: u64)
        ensures
            r == Self::ceiling(a),
    ;

    /// The decimal text of `a`.
    fn scalar_text(a: Scalar) -> (r: String)
        ensures
            r@ == Self::text(a),
    ;

    /// A vector of `n` zeros.
    fn zeros_vec(&self, n: usize) -> (r: Self::Vector)
        ensures
            Self::seq(r) == zero_seq(n as nat),
    ;

    /// A matrix of zeros.
    fn zeros_mat(&self, rows: usize, cols: usize) -> (r: Self::Matrix)
        ensures
            Self::grid(r) == Grid::zeros(rows as nat, cols as nat),
    ;

    /// A copy of a vector.
    fn vec_clone(v: &Self::Vector) -> (r: Self::Vector)
        ensures
            Self::seq(r) == Self::seq(*v),
    ;

    /// A copy of a matrix.
    fn mat_clone(m: &Self::Matrix) -> (r: Self::Matrix)
        ensures
            Self::grid(r) == Self::grid(*m),
    ;

    /// The number of entries of a vector.
    fn vec_len(&self, v: &Self::Vector) -> (r: usize)
        ensures
            r == Self::seq(*v).len(),
    ;

    /// The entry at position `i`.
    fn vec_get(&self, v: &Self::Vector, i: usize) -> (r: Scalar)
        requires
            i < Self::seq(*v).len(),
        ensures
            r == Self::seq(*v)[i as int],
    ;

    /// Replaces the entry at position `i`.
    fn vec_set(&self, v: &mut Self::Vector, i: usize, x: Scalar)
        requires
            i < Self::seq(*old(v)).len(),
        ensures
            Self::seq(*final(v)) == Self::seq(*old(v)).update(i as int, x),
    ;

    /// A vector with the given entries.
    fn vec_from_slice(&self, s: &[Scalar]) -> (r: Self::Vector)
        ensures
            Self::seq(r) == s@,
    ;

    /// The entries of a vector.
    fn vec_to_vec(&self, v: &Self::Vector) -> (r: Vec<Scalar>)
        ensures
            r@ == Self::seq(*v),
    ;

    /// The number of rows.
    fn mat_rows(&self, m: &Self::Matrix) -> (r: usize)
        ensures
            r == Self::grid(*m).rows && Self::grid(*m).rectangular(),
    ;

    /// The number of columns.
    fn mat_cols(&self, m: &Self::Matrix) -> (r: usize)
        ensures
            r == Self::grid(*m).cols && Self::grid(*m).rectangular(),
    ;

    /// The entry in row `r` and column `c`.
    fn mat_get(&self, m: &Self::Matrix, r: usize, c: usize) -> (x: Scalar)
        requires
            r < Self::grid(*m).rows,
            c < Self::grid(*m).cols,
        ensures
            x == Self::grid(*m).at(r as int, c as int),
    ;

    /// Replaces the entry in row `r` and column `c`.
    fn mat_set(&self, m: &mut Self::Matrix, r: usize, c: usize, x: Scalar)
        requires
            r < Self::grid(*old(m)).rows,
            c < Self::grid(*old(m)).cols,
        ensures
            Self::grid(*final(m)) == Self::grid(*old(m)).put(r as int, c as int, x),
    ;

    /// Rows and columns exchanged.
    fn mat_transpose(&self, m: &Self::Matrix) -> (r: Self::Matrix)
        ensures
            Self::grid(r) == Self::grid(*m).transposed(),
    ;

    /// The product of a matrix and a vector.
    fn mat_vec_mul(&self, m: &Self::Matrix, v: &Self::Vector) -> (r: Self::Vector)
        requires
            Self::grid(*m).cols == Self::seq(*v).len(),
        ensures
            Self::seq(r) == Self::product(Self::grid(*m), Self::seq(*v)),
            Self::seq(r).len() == Self::grid(*m).rows,
    ;

    /// The sum of two vectors.
    fn vec_add(&self, a: &Self::Vector, b: &Self::Vector) -> (r: Self::Vector)
        requires
            Self::seq(*a).len() == Self::seq(*b).len(),
        ensures
            Self::seq(r) == Seq::new(
                Self::seq(*a).len(),
                |i: int| Self::plus(Self::seq(*a)[i], Self::seq(*b)[i]),
            ),
    ;

    /// A vector times a number.
    fn vec_scale(&self, a: &Self::Vector, k: Scalar) -> (r: Self::Vector)
        ensures
            Self::seq(r) == Seq::new(
                Self::seq(*a).len(),
                |i: int| Self::times(Self::seq(*a)[i], k),
            ),
    ;

    /// The entry-by-entry product of two vectors.
    fn vec_hadamard(&self, a: &Self::Vector, b: &Self::Vector) -> (r: Self::Vector)
        requires
            Self::seq(*a).len() == Self::seq(*b).len(),
        ensures
            Self::seq(r) == Seq::new(
                Self::seq(*a).len(),
                |i: int| Self::times(Self::seq(*a)[i], Self::seq(*b)[i]),
            ),
    ;

    /// Moves every entry into `[-bound, bound]`.
    fn clip_vec(&self, v: &mut Self::Vector, bound: Scalar)
        ensures
            Self::seq(*final(v)) == Seq::new(
                Self::seq(*old(v)).len(),
                |i: int| Self::seq(*old(v))[i].clamped(bound.negated(), bound),
            ),
    ;

    /// The softmax of `v` over the positions in `valid`.
    fn softmax_masked(&self, v: &Self::Vector, valid: &[usize]) -> (r: Self::Vector)
        requires
            forall|k: int| 0 <= k < valid@.len() ==> (#[trigger] valid@[k]) < Self::seq(*v).len(),
        ensures
            Self::seq(r) == Self::softmax(Self::seq(*v), valid@),
            Self::seq(r).len() == Self::seq(*v).len(),
    ;

    /// The derivative of an activation function at outputs it gave.
    fn apply_derivative(&self, v: &Self::Vector, activation: Activation) -> (r: Self::Vector)
        ensures
            Self::seq(r) == Self::slope(Self::seq(*v), activation),
            Self::seq(r).len() == Self::seq(*v).len(),
    ;
}

} // verus!
