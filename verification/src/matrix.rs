//! The `Matrix` value type: a dense, rectangular, row-major table of
//! 64-bit integer entries with value semantics, together with the
//! mathematical model (`Seq<Seq<int>>`) that every contract speaks of.

use vstd::prelude::*;

use vstd::string::StringExecFns;

use crate::render::{
    entries_chars, lemma_entries_prefix, lemma_render_prefix, push_entry, render_chars,
};

verus! {

/// Error returned when a matrix is constructed with a zero extent.
#[derive(Debug, Clone, Copy, PartialEq, Eq, Structural)]
pub enum MatrixError {
    EmptyDimension,
}

/// A dense matrix. The entries are stored row-major; the extents are
/// fixed at construction and only entry values ever change.
#[derive(Debug)]
pub struct Matrix {
    data: Vec<Vec<i64>>,
}

/// The mathematical reading of one stored row.
pub open spec fn to_ints(s: Seq<i64>) -> Seq<int> {
    Seq::new(s.len(), |j: int| s[j] as int)
}

/// A well-formed matrix model: at least one row, at least one column,
/// and every row of the same length.
pub open spec fn is_matrix(m: Seq<Seq<int>>) -> bool {
    &&& m.len() >= 1
    &&& m[0].len() >= 1
    &&& forall|i: int| 0 <= i < m.len() ==> #[trigger] m[i].len() == m[0].len()
}

/// Row count of a model matrix.
pub open spec fn rows_of(m: Seq<Seq<int>>) -> int {
    m.len() as int
}

/// Column count of a model matrix.
pub open spec fn cols_of(m: Seq<Seq<int>>) -> int {
    m[0].len() as int
}

/// Whether `x` fits in a 64-bit signed machine integer.
pub open spec fn in_i64(x: int) -> bool {
    i64::MIN <= x <= i64::MAX
}

/// Dot product of two equally long vectors.
pub open spec fn dot(r: Seq<int>, c: Seq<int>) -> int
    decreases r.len(),
{
    if r.len() == 0 {
        0
    } else {
        dot(r.drop_last(), c.drop_last()) + r.last() * c.last()
    }
}

/// Dot product of the first `n` coordinates: the partial sums a
/// left-to-right accumulation passes through.
pub open spec fn dot_prefix(r: Seq<int>, c: Seq<int>, n: int) -> int {
    dot(r.take(n), c.take(n))
}

/// Column `j` of a model matrix.
pub open spec fn col(m: Seq<Seq<int>>, j: int) -> Seq<int> {
    Seq::new(m.len(), |i: int| m[i][j])
}

/// The transpose: entry `(c, r)` of the result is entry `(r, c)` of `m`.
pub open spec fn transpose_of(m: Seq<Seq<int>>) -> Seq<Seq<int>> {
    Seq::new(m[0].len(), |j: int| col(m, j))
}

/// The standard matrix product: entry `(i, j)` is the dot product of
/// row `i` of `a` and column `j` of `b`.
pub open spec fn mat_mul(a: Seq<Seq<int>>, b: Seq<Seq<int>>) -> Seq<Seq<int>> {
    Seq::new(a.len(), |i: int| Seq::new(b[0].len(), |j: int| dot(a[i], col(b, j))))
}

/// Entrywise sum of two equal-extent matrices.
pub open spec fn mat_add(a: Seq<Seq<int>>, b: Seq<Seq<int>>) -> Seq<Seq<int>> {
    Seq::new(a.len(), |i: int| Seq::new(a[i].len(), |j: int| a[i][j] + b[i][j]))
}

/// Entrywise difference of two equal-extent matrices.
pub open spec fn mat_sub(a: Seq<Seq<int>>, b: Seq<Seq<int>>) -> Seq<Seq<int>> {
    Seq::new(a.len(), |i: int| Seq::new(a[i].len(), |j: int| a[i][j] - b[i][j]))
}

/// The four entrywise matrix-scalar operations.
#[derive(Debug, Clone, Copy, PartialEq, Eq, Structural)]
pub enum ScalarOp {
    Add,
    Sub,
    Mul,
    Div,
}

/// Division that truncates toward zero, as machine division does;
/// unspecified (zero) for a zero divisor.
pub open spec fn div_trunc(a: int, b: int) -> int {
    if b == 0 {
        0
    } else if (a < 0) <==> (b < 0) {
        abs_of(a) / abs_of(b)
    } else {
        -(abs_of(a) / abs_of(b))
    }
}

/// Absolute value.
pub open spec fn abs_of(a: int) -> int {
    if a < 0 {
        -a
    } else {
        a
    }
}

/// One entry under a matrix-scalar operation.
pub open spec fn scalar_apply(op: ScalarOp, a: int, s: int) -> int {
    match op {
        ScalarOp::Add => a + s,
        ScalarOp::Sub => a - s,
        ScalarOp::Mul => a * s,
        ScalarOp::Div => div_trunc(a, s),
    }
}

/// A matrix-scalar operation applied to every entry.
pub open spec fn mat_scalar(op: ScalarOp, m: Seq<Seq<int>>, s: int) -> Seq<Seq<int>> {
    Seq::new(m.len(), |i: int| Seq::new(m[i].len(), |j: int| scalar_apply(op, m[i][j], s)))
}

/// The `rows × cols` matrix with every entry `v`.
pub open spec fn filled(rows: int, cols: int, v: int) -> Seq<Seq<int>> {
    Seq::new(rows as nat, |i: int| Seq::new(cols as nat, |j: int| v))
}

/// Row `j` of the order-`n` identity: `1` at coordinate `j`, `0` elsewhere.
pub open spec fn unit_row(n: int, j: int) -> Seq<int> {
    Seq::new(n as nat, |k: int| if k == j { 1 } else { 0 })
}

/// The order-`n` identity matrix.
pub open spec fn identity_mat(n: int) -> Seq<Seq<int>> {
    Seq::new(n as nat, |i: int| unit_row(n, i))
}

/// Every step of a left-to-right dot-product accumulation stays within
/// machine range: each product fits, and each new partial sum fits.
pub open spec fn dot_feasible(r: Seq<int>, c: Seq<int>) -> bool {
    forall|k: int|
        0 <= k < r.len() ==> in_i64(r[k] * c[k]) && in_i64(
            #[trigger] dot_prefix(r, c, k) + r[k] * c[k],
        )
}

/// Every dot product that the product of `a` and `b` computes is
/// feasible on 64-bit machine integers.
pub open spec fn mul_feasible(a: Seq<Seq<int>>, b: Seq<Seq<int>>) -> bool {
    forall|i: int, j: int|
        0 <= i < a.len() && 0 <= j < b[0].len() ==> #[trigger] dot_feasible(a[i], col(b, j))
}

/// Every entrywise sum of two equal-extent matrices fits in machine range.
pub open spec fn add_feasible(a: Seq<Seq<int>>, b: Seq<Seq<int>>) -> bool {
    forall|i: int, j: int|
        0 <= i < a.len() && 0 <= j < a[i].len() ==> in_i64((#[trigger] a[i][j]) + b[i][j])
}

/// Every entrywise difference of two equal-extent matrices fits in machine range.
pub open spec fn sub_feasible(a: Seq<Seq<int>>, b: Seq<Seq<int>>) -> bool {
    forall|i: int, j: int|
        0 <= i < a.len() && 0 <= j < a[i].len() ==> in_i64((#[trigger] a[i][j]) - b[i][j])
}

/// The matrix-scalar operation is defined (a nonzero divisor for
/// division) and every resulting entry fits in machine range.
pub open spec fn scalar_feasible(op: ScalarOp, m: Seq<Seq<int>>, s: int) -> bool {
    &&& op is Div ==> s != 0
    &&& forall|i: int, j: int|
        0 <= i < m.len() && 0 <= j < m[i].len() ==> in_i64(#[trigger] scalar_apply(op, m[i][j], s))
}

/// Extending a dot-product prefix by one coordinate adds one product.
proof fn lemma_dot_prefix_step(r: Seq<int>, c: Seq<int>, k: int)
    requires
        r.len() == c.len(),
        0 <= k < r.len(),
    ensures
        dot_prefix(r, c, k + 1) == dot_prefix(r, c, k) + r[k] * c[k],
{
    assert(r.take(k + 1).drop_last() =~= r.take(k));
    assert(c.take(k + 1).drop_last() =~= c.take(k));
    assert(r.take(k + 1).last() == r[k]);
    assert(c.take(k + 1).last() == c[k]);
}

/// The full prefix is the whole dot product.
proof fn lemma_dot_prefix_all(r: Seq<int>, c: Seq<int>)
    requires
        r.len() == c.len(),
    ensures
        dot_prefix(r, c, r.len() as int) == dot(r, c),
{
    assert(r.take(r.len() as int) =~= r);
    assert(c.take(c.len() as int) =~= c);
}

/// A left-to-right accumulation of the dot product of two stored rows.
fn dot_rows(a: &Vec<i64>, b: &Vec<i64>) -> (r: i64)
    requires
        a@.len() == b@.len(),
        dot_feasible(to_ints(a@), to_ints(b@)),
    ensures
        r as int == dot(to_ints(a@), to_ints(b@)),
{
    let ghost ra = to_ints(a@);
    let ghost rb = to_ints(b@);
    let n = a.len();
    let mut acc: i64 = 0;
    let mut k: usize = 0;
    while k < n
        invariant
            k <= n,
            n == a@.len(),
            n == b@.len(),
            ra == to_ints(a@),
            rb == to_ints(b@),
            dot_feasible(ra, rb),
            acc as int == dot_prefix(ra, rb, k as int),
        decreases n - k,
    {
        proof {
            assert(ra[k as int] == a@[k as int] as int);
            assert(rb[k as int] == b@[k as int] as int);
            assert(in_i64(dot_prefix(ra, rb, k as int) + ra[k as int] * rb[k as int]));
            lemma_dot_prefix_step(ra, rb, k as int);
        }
        let p = a[k] * b[k];
        acc = acc + p;
        k += 1;
    }
    proof {
        lemma_dot_prefix_all(ra, rb);
    }
    acc
}

impl View for Matrix {
    type V = Seq<Seq<int>>;

    closed spec fn view(&self) -> Seq<Seq<int>> {
        Seq::new(self.data@.len(), |i: int| to_ints(self.data@[i]@))
    }
}

impl Matrix {
    /// Well-formedness: the stored table is rectangular and nonempty in
    /// both extents. Constructors establish this and methods preserve it.
    pub open spec fn wf(&self) -> bool {
        is_matrix(self@)
    }

    /// Every stored entry is a machine integer, so casts of model
    /// entries back to `i64` are faithful.
    pub proof fn lemma_entries_in_range(&self)
        ensures
            forall|i: int, j: int|
                0 <= i < self@.len() && 0 <= j < self@[i].len() ==> in_i64(#[trigger] self@[i][j]),
    {
        assert forall|i: int, j: int|
            0 <= i < self@.len() && 0 <= j < self@[i].len() implies in_i64(#[trigger] self@[i][j]) by {
            assert(self@[i] == to_ints(self.data@[i]@));
        }
    }

    /// How the model reads the representation: row `i` of the view is
    /// the mathematical reading of stored row `i`.
    proof fn lemma_repr(&self)
        ensures
            self@.len() == self.data@.len(),
            forall|i: int|
                0 <= i < self.data@.len() ==> #[trigger] self@[i].len() == self.data@[i]@.len(),
            forall|i: int, j: int|
                0 <= i < self.data@.len() && 0 <= j < self.data@[i]@.len()
                    ==> #[trigger] self@[i][j] == self.data@[i]@[j] as int,
    {
        assert forall|i: int| 0 <= i < self.data@.len() implies #[trigger] self@[i].len()
            == self.data@[i]@.len() by {
            assert(self@[i] == to_ints(self.data@[i]@));
        }
        assert forall|i: int, j: int|
            0 <= i < self.data@.len() && 0 <= j
                < self.data@[i]@.len() implies #[trigger] self@[i][j] == self.data@[i]@[j] as int by {
            assert(self@[i] == to_ints(self.data@[i]@));
        }
    }

    /// The only validating constructor. It takes a rectangular sequence
    /// of rows (every row of the same length), wraps the entries
    /// unchanged, and fails exactly when either extent is zero.
    pub fn new(body: Vec<Vec<i64>>) -> (r: Result<Matrix, MatrixError>)
        requires
            forall|i: int|
                0 <= i < body@.len() ==> #[trigger] body@[i]@.len() == body@[0]@.len(),
        ensures
            body@.len() >= 1 && body@[0]@.len() >= 1 ==> ({
                &&& r matches Ok(m)
                &&& m.wf()
                &&& m@.len() == body@.len()
                &&& forall|i: int| 0 <= i < body@.len() ==> #[trigger] m@[i] == to_ints(body@[i]@)
            }),
            body@.len() == 0 || body@[0]@.len() == 0 ==> (r matches Err(e) && e == MatrixError::EmptyDimension),
    {
        if body.len() == 0 || body[0].len() == 0 {
            Err(MatrixError::EmptyDimension)
        } else {
            let m = Matrix { data: body };
            Ok(m)
        }
    }

    /// The one generic builder behind every entrywise operation: a
    /// `rows × cols` matrix whose entry `(i, j)` is `f(i, j)`.
    pub(crate) fn from_fn<F: Fn(usize, usize) -> i64>(rows: usize, cols: usize, f: F) -> (r: Matrix)
        requires
            rows >= 1,
            cols >= 1,
            forall|i: usize, j: usize| i < rows && j < cols ==> #[trigger] call_requires(f, (i, j)),
        ensures
            r.wf(),
            rows_of(r@) == rows,
            cols_of(r@) == cols,
            forall|i: int, j: int|
                0 <= i < rows && 0 <= j < cols ==> in_i64(#[trigger] r@[i][j]) && call_ensures(
                    f,
                    (i as usize, j as usize),
                    r@[i][j] as i64,
                ),
    {
        let mut data: Vec<Vec<i64>> = Vec::new();
        let mut i: usize = 0;
        while i < rows
            invariant
                i <= rows,
                cols >= 1,
                data@.len() == i,
                forall|i2: usize, j2: usize|
                    i2 < rows && j2 < cols ==> #[trigger] call_requires(f, (i2, j2)),
                forall|i2: int| 0 <= i2 < i ==> #[trigger] data@[i2]@.len() == cols,
                forall|i2: int, j2: int|
                    0 <= i2 < i && 0 <= j2 < cols ==> call_ensures(
                        f,
                        (i2 as usize, j2 as usize),
                        #[trigger] data@[i2]@[j2],
                    ),
            decreases rows - i,
        {
            let mut row: Vec<i64> = Vec::new();
            let mut j: usize = 0;
            while j < cols
                invariant
                    j <= cols,
                    i < rows,
                    row@.len() == j,
                    forall|i2: usize, j2: usize|
                        i2 < rows && j2 < cols ==> #[trigger] call_requires(f, (i2, j2)),
                    forall|j2: int|
                        0 <= j2 < j ==> call_ensures(
                            f,
                            (i as usize, j2 as usize),
                            #[trigger] row@[j2],
                        ),
                decreases cols - j,
            {
                let e = f(i, j);
                row.push(e);
                j += 1;
            }
            data.push(row);
            i += 1;
        }
        let m = Matrix { data };
        proof {
            m.lemma_repr();
            assert forall|i2: int, j2: int| 0 <= i2 < rows && 0 <= j2 < cols implies in_i64(
                #[trigger] m@[i2][j2],
            ) && call_ensures(f, (i2 as usize, j2 as usize), m@[i2][j2] as i64) by {
                assert(m@[i2][j2] == m.data@[i2]@[j2] as int);
                assert(call_ensures(f, (i2 as usize, j2 as usize), m.data@[i2]@[j2]));
            }
            assert(m.wf());
        }
        m
    }

    /// A matrix of the given extents with every entry `0`.
    pub fn zeros(rows: usize, cols: usize) -> (r: Matrix)
        requires
            rows >= 1,
            cols >= 1,
        ensures
            r.wf(),
            r@ == filled(rows as int, cols as int, 0),
    {
        Matrix::fill(rows, cols, 0)
    }

    /// A matrix of the given extents with every entry `n`.
    pub fn fill(rows: usize, cols: usize, n: i64) -> (r: Matrix)
        requires
            rows >= 1,
            cols >= 1,
        ensures
            r.wf(),
            r@ == filled(rows as int, cols as int, n as int),
    {
        let cl = |i: usize, j: usize| -> (e: i64)
            ensures
                e == n,
            { n };
        let m = Matrix::from_fn(rows, cols, cl);
        proof {
            assert(m@ =~~= filled(rows as int, cols as int, n as int));
        }
        m
    }

    /// Returns the extents `(rows, cols)`.
    pub fn size(&self) -> (r: (usize, usize))
        requires
            self.wf(),
        ensures
            r.0 == rows_of(self@),
            r.1 == cols_of(self@),
    {
        proof {
            self.lemma_repr();
        }
        (self.data.len(), self.data[0].len())
    }

    /// Bounds-checked access: the entry at `(pos.0, pos.1)` when both
    /// indices are in range, and `None` otherwise.
    pub fn get(&self, pos: (usize, usize)) -> (r: Option<i64>)
        requires
            self.wf(),
        ensures
            pos.0 < rows_of(self@) && pos.1 < cols_of(self@) ==> ({
                &&& r matches Some(e)
                &&& e as int == self@[pos.0 as int][pos.1 as int]
            }),
            !(pos.0 < rows_of(self@) && pos.1 < cols_of(self@)) ==> r is None,
    {
        proof {
            self.lemma_repr();
        }
        if pos.0 < self.data.len() && pos.1 < self.data[0].len() {
            proof {
                assert(self@[pos.0 as int].len() == self@[0].len());
            }
            Some(self.data[pos.0][pos.1])
        } else {
            None
        }
    }

    /// The transpose: a `cols × rows` matrix with entry `(c, r)` equal
    /// to this matrix's entry `(r, c)`. The receiver is not changed.
    pub fn transpose(&self) -> (r: Matrix)
        requires
            self.wf(),
        ensures
            r.wf(),
            r@ == transpose_of(self@),
    {
        proof {
            self.lemma_repr();
        }
        let rows = self.data.len();
        let cols = self.data[0].len();
        let cl = |i: usize, j: usize| -> (e: i64)
            requires
                i < cols_of(self@),
                j < rows_of(self@),
            ensures
                e as int == self@[j as int][i as int],
            {
                proof {
                    self.lemma_repr();
                    assert(self@[j as int].len() == self@[0].len());
                }
                self.data[j][i]
            };
        let m = Matrix::from_fn(cols, rows, cl);
        proof {
            assert forall|i: int, j: int|
                0 <= i < cols && 0 <= j < rows implies m@[i][j] == transpose_of(self@)[i][j] by {
                assert(call_ensures(cl, (i as usize, j as usize), m@[i][j] as i64));
                assert(transpose_of(self@)[i] == col(self@, i));
            }
            assert(m@ =~~= transpose_of(self@));
        }
        m
    }

    /// The dimension-checked matrix product: for a `M × L` receiver and
    /// an `L × N` argument, the `M × N` matrix whose entry `(i, j)` is
    /// the dot product of row `i` of the receiver and column `j` of the
    /// argument. The argument is traversed through its transpose, which
    /// does not change the result.
    pub fn mul(&self, other: &Matrix) -> (r: Matrix)
        requires
            self.wf(),
            other.wf(),
            cols_of(self@) == rows_of(other@),
            mul_feasible(self@, other@),
        ensures
            r.wf(),
            r@ == mat_mul(self@, other@),
    {
        proof {
            self.lemma_repr();
            other.lemma_repr();
        }
        let rows = self.data.len();
        let cols = other.data[0].len();
        let bt = other.transpose();
        let cl = |i: usize, j: usize| -> (e: i64)
            requires
                i < rows_of(self@),
                j < cols_of(other@),
            ensures
                e as int == dot(self@[i as int], col(other@, j as int)),
            {
                proof {
                    self.lemma_repr();
                    bt.lemma_repr();
                    assert(self@[i as int].len() == self@[0].len());
                    assert(bt@[j as int].len() == bt@[0].len());
                    assert(self@[i as int] == to_ints(self.data@[i as int]@));
                    assert(bt@[j as int] == to_ints(bt.data@[j as int]@));
                    assert(bt@[j as int] == col(other@, j as int));
                    assert(dot_feasible(self@[i as int], col(other@, j as int)));
                }
                dot_rows(&self.data[i], &bt.data[j])
            };
        let m = Matrix::from_fn(rows, cols, cl);
        proof {
            assert forall|i: int, j: int|
                0 <= i < rows && 0 <= j < cols implies m@[i][j] == mat_mul(self@, other@)[i][j] by {
                assert(call_ensures(cl, (i as usize, j as usize), m@[i][j] as i64));
            }
            assert(m@ =~~= mat_mul(self@, other@));
        }
        m
    }

    /// Entrywise sum of two equal-extent matrices.
    pub fn add(&self, other: &Matrix) -> (r: Matrix)
        requires
            self.wf(),
            other.wf(),
            rows_of(self@) == rows_of(other@),
            cols_of(self@) == cols_of(other@),
            add_feasible(self@, other@),
        ensures
            r.wf(),
            r@ == mat_add(self@, other@),
    {
        proof {
            self.lemma_repr();
        }
        let rows = self.data.len();
        let cols = self.data[0].len();
        let cl = |i: usize, j: usize| -> (e: i64)
            requires
                i < rows_of(self@),
                j < cols_of(self@),
            ensures
                e as int == self@[i as int][j as int] + other@[i as int][j as int],
            {
                proof {
                    self.lemma_repr();
                    other.lemma_repr();
                    assert(self@[i as int].len() == self@[0].len());
                    assert(other@[i as int].len() == other@[0].len());
                    assert(in_i64(self@[i as int][j as int] + other@[i as int][j as int]));
                }
                self.data[i][j] + other.data[i][j]
            };
        let m = Matrix::from_fn(rows, cols, cl);
        proof {
            assert forall|i: int, j: int|
                0 <= i < rows && 0 <= j < cols implies m@[i][j] == mat_add(self@, other@)[i][j] by {
                assert(call_ensures(cl, (i as usize, j as usize), m@[i][j] as i64));
            }
            assert(m@ =~~= mat_add(self@, other@));
        }
        m
    }

    /// Entrywise difference of two equal-extent matrices.
    pub fn sub(&self, other: &Matrix) -> (r: Matrix)
        requires
            self.wf(),
            other.wf(),
            rows_of(self@) == rows_of(other@),
            cols_of(self@) == cols_of(other@),
            sub_feasible(self@, other@),
        ensures
            r.wf(),
            r@ == mat_sub(self@, other@),
    {
        proof {
            self.lemma_repr();
        }
        let rows = self.data.len();
        let cols = self.data[0].len();
        let cl = |i: usize, j: usize| -> (e: i64)
            requires
                i < rows_of(self@),
                j < cols_of(self@),
            ensures
                e as int == self@[i as int][j as int] - other@[i as int][j as int],
            {
                proof {
                    self.lemma_repr();
                    other.lemma_repr();
                    assert(self@[i as int].len() == self@[0].len());
                    assert(other@[i as int].len() == other@[0].len());
                    assert(in_i64(self@[i as int][j as int] - other@[i as int][j as int]));
                }
                self.data[i][j] - other.data[i][j]
            };
        let m = Matrix::from_fn(rows, cols, cl);
        proof {
            assert forall|i: int, j: int|
                0 <= i < rows && 0 <= j < cols implies m@[i][j] == mat_sub(self@, other@)[i][j] by {
                assert(call_ensures(cl, (i as usize, j as usize), m@[i][j] as i64));
            }
            assert(m@ =~~= mat_sub(self@, other@));
        }
        m
    }

    /// One of the four entrywise matrix-scalar operations, chosen by `op`.
    pub fn scalar_op(&self, op: ScalarOp, s: i64) -> (r: Matrix)
        requires
            self.wf(),
            scalar_feasible(op, self@, s as int),
        ensures
            r.wf(),
            r@ == mat_scalar(op, self@, s as int),
    {
        proof {
            self.lemma_repr();
        }
        let rows = self.data.len();
        let cols = self.data[0].len();
        let cl = |i: usize, j: usize| -> (e: i64)
            requires
                i < rows_of(self@),
                j < cols_of(self@),
            ensures
                e as int == scalar_apply(op, self@[i as int][j as int], s as int),
            {
                proof {
                    self.lemma_repr();
                    assert(self@[i as int].len() == self@[0].len());
                    assert(in_i64(scalar_apply(op, self@[i as int][j as int], s as int)));
                }
                let a = self.data[i][j];
                match op {
                    ScalarOp::Add => a + s,
                    ScalarOp::Sub => a - s,
                    ScalarOp::Mul => a * s,
                    ScalarOp::Div => div_entry(a, s),
                }
            };
        let m = Matrix::from_fn(rows, cols, cl);
        proof {
            assert forall|i: int, j: int|
                0 <= i < rows && 0 <= j < cols implies m@[i][j] == mat_scalar(
                op,
                self@,
                s as int,
            )[i][j] by {
                assert(call_ensures(cl, (i as usize, j as usize), m@[i][j] as i64));
            }
            assert(m@ =~~= mat_scalar(op, self@, s as int));
        }
        m
    }
    /// Exchanges rows `idx_1` and `idx_2` in place. Both indices must
    /// be in range; nothing else changes.
    pub fn swap_rows(&mut self, idx_1: usize, idx_2: usize)
        requires
            old(self).wf(),
            idx_1 < rows_of(old(self)@),
            idx_2 < rows_of(old(self)@),
        ensures
            final(self).wf(),
            final(self)@ == old(self)@.update(idx_1 as int, old(self)@[idx_2 as int]).update(
                idx_2 as int,
                old(self)@[idx_1 as int],
            ),
    {
        let this: &Matrix = &*self;
        proof {
            this.lemma_repr();
        }
        let rows = this.data.len();
        let cols = this.data[0].len();
        let cl = |i: usize, j: usize| -> (e: i64)
            requires
                i < rows_of(this@),
                j < cols_of(this@),
            ensures
                e as int == this@.update(idx_1 as int, this@[idx_2 as int]).update(
                    idx_2 as int,
                    this@[idx_1 as int],
                )[i as int][j as int],
            {
                let src = if i == idx_1 {
                    idx_2
                } else if i == idx_2 {
                    idx_1
                } else {
                    i
                };
                proof {
                    this.lemma_repr();
                    assert(this@[src as int].len() == this@[0].len());
                }
                this.data[src][j]
            };
        let m = Matrix::from_fn(rows, cols, cl);
        proof {
            let target = this@.update(idx_1 as int, this@[idx_2 as int]).update(
                idx_2 as int,
                this@[idx_1 as int],
            );
            assert forall|i: int, j: int| 0 <= i < rows && 0 <= j < cols implies m@[i][j]
                == target[i][j] by {
                assert(call_ensures(cl, (i as usize, j as usize), m@[i][j] as i64));
            }
            assert(m@ =~~= target);
        }
        *self = m;
    }

    /// The pure form of the elementwise transform: a matrix whose entry
    /// `(i, j)` is an output of `function` on this matrix's entry `(i, j)`.
    fn map_entries<F: Fn(i64) -> i64>(&self, function: F) -> (r: Matrix)
        requires
            self.wf(),
            forall|v: i64| #[trigger] call_requires(function, (v,)),
        ensures
            r.wf(),
            rows_of(r@) == rows_of(self@),
            cols_of(r@) == cols_of(self@),
            forall|i: int, j: int|
                0 <= i < rows_of(self@) && 0 <= j < cols_of(self@) ==> in_i64(#[trigger] r@[i][j])
                    && call_ensures(function, ((self@[i][j]) as i64,), (r@[i][j]) as i64),
    {
        proof {
            self.lemma_repr();
            self.lemma_entries_in_range();
        }
        let rows = self.data.len();
        let cols = self.data[0].len();
        let mut data: Vec<Vec<i64>> = Vec::new();
        let mut i: usize = 0;
        while i < rows
            invariant
                i <= rows,
                self.wf(),
                rows == self.data@.len(),
                cols == self.data@[0]@.len(),
                rows == self@.len(),
                cols == self@[0].len(),
                forall|v: i64| #[trigger] call_requires(function, (v,)),
                data@.len() == i,
                forall|i2: int| 0 <= i2 < i ==> #[trigger] data@[i2]@.len() == cols,
                forall|i2: int, j2: int|
                    0 <= i2 < i && 0 <= j2 < cols ==> call_ensures(
                        function,
                        ((self@[i2][j2]) as i64,),
                        #[trigger] data@[i2]@[j2],
                    ),
            decreases rows - i,
        {
            proof {
                self.lemma_repr();
                assert(self@[i as int].len() == self@[0].len());
            }
            let mut row: Vec<i64> = Vec::new();
            let mut j: usize = 0;
            while j < cols
                invariant
                    j <= cols,
                    i < rows,
                    self.wf(),
                    rows == self.data@.len(),
                    cols == self.data@[i as int]@.len(),
                    rows == self@.len(),
                    cols == self@[i as int].len(),
                    forall|v: i64| #[trigger] call_requires(function, (v,)),
                    row@.len() == j,
                    forall|j2: int|
                        0 <= j2 < j ==> call_ensures(
                            function,
                            ((self@[i as int][j2]) as i64,),
                            #[trigger] row@[j2],
                        ),
                decreases cols - j,
            {
                proof {
                    self.lemma_repr();
                    self.lemma_entries_in_range();
                    assert(self@[i as int][j as int] == self.data@[i as int]@[j as int] as int);
                }
                let e = function(self.data[i][j]);
                row.push(e);
                j += 1;
            }
            data.push(row);
            i += 1;
        }
        let m = Matrix { data };
        proof {
            m.lemma_repr();
            assert(m.wf());
            assert forall|i2: int, j2: int|
                0 <= i2 < rows_of(self@) && 0 <= j2 < cols_of(self@) implies in_i64(
                #[trigger] m@[i2][j2],
            ) && call_ensures(function, ((self@[i2][j2]) as i64,), (m@[i2][j2]) as i64) by {
                assert(m@[i2][j2] == m.data@[i2]@[j2] as int);
                assert(call_ensures(function, ((self@[i2][j2]) as i64,), m.data@[i2]@[j2]));
            }
        }
        m
    }

    /// Applies `function` to every entry, mutating the receiver: each
    /// new entry is an output of `function` on the old entry there.
    pub fn for_each<F: Fn(i64) -> i64>(&mut self, function: F)
        requires
            old(self).wf(),
            forall|v: i64| #[trigger] call_requires(function, (v,)),
        ensures
            final(self).wf(),
            rows_of(final(self)@) == rows_of(old(self)@),
            cols_of(final(self)@) == cols_of(old(self)@),
            forall|i: int, j: int|
                0 <= i < rows_of(old(self)@) && 0 <= j < cols_of(old(self)@) ==> in_i64(
                    #[trigger] final(self)@[i][j],
                ) && call_ensures(function, ((old(self)@[i][j]) as i64,), (final(self)@[i][j]) as i64),
    {
        let m = self.map_entries(function);
        *self = m;
    }

    /// In-place entrywise sum: `add`, applied destructively.
    pub fn add_assign(&mut self, other: &Matrix)
        requires
            old(self).wf(),
            other.wf(),
            rows_of(old(self)@) == rows_of(other@),
            cols_of(old(self)@) == cols_of(other@),
            add_feasible(old(self)@, other@),
        ensures
            final(self).wf(),
            final(self)@ == mat_add(old(self)@, other@),
    {
        let m = self.add(other);
        *self = m;
    }

    /// In-place entrywise difference: `sub`, applied destructively.
    pub fn sub_assign(&mut self, other: &Matrix)
        requires
            old(self).wf(),
            other.wf(),
            rows_of(old(self)@) == rows_of(other@),
            cols_of(old(self)@) == cols_of(other@),
            sub_feasible(old(self)@, other@),
        ensures
            final(self).wf(),
            final(self)@ == mat_sub(old(self)@, other@),
    {
        let m = self.sub(other);
        *self = m;
    }

    /// Entrywise sum with a scalar.
    pub fn add_scalar(&self, s: i64) -> (r: Matrix)
        requires
            self.wf(),
            scalar_feasible(ScalarOp::Add, self@, s as int),
        ensures
            r.wf(),
            r@ == mat_scalar(ScalarOp::Add, self@, s as int),
    {
        self.scalar_op(ScalarOp::Add, s)
    }

    /// Entrywise difference with a scalar.
    pub fn sub_scalar(&self, s: i64) -> (r: Matrix)
        requires
            self.wf(),
            scalar_feasible(ScalarOp::Sub, self@, s as int),
        ensures
            r.wf(),
            r@ == mat_scalar(ScalarOp::Sub, self@, s as int),
    {
        self.scalar_op(ScalarOp::Sub, s)
    }

    /// Entrywise product with a scalar.
    pub fn mul_scalar(&self, s: i64) -> (r: Matrix)
        requires
            self.wf(),
            scalar_feasible(ScalarOp::Mul, self@, s as int),
        ensures
            r.wf(),
            r@ == mat_scalar(ScalarOp::Mul, self@, s as int),
    {
        self.scalar_op(ScalarOp::Mul, s)
    }

    /// Entrywise quotient by a nonzero scalar, truncating toward zero.
    pub fn div_scalar(&self, s: i64) -> (r: Matrix)
        requires
            self.wf(),
            scalar_feasible(ScalarOp::Div, self@, s as int),
        ensures
            r.wf(),
            r@ == mat_scalar(ScalarOp::Div, self@, s as int),
    {
        self.scalar_op(ScalarOp::Div, s)
    }

    /// Renders the matrix as text: one line per row, each row's
    /// entries bracketed, comma-separated and in decimal, row order
    /// preserved.
    pub fn render(&self) -> (r: String)
        requires
            self.wf(),
        ensures
            r@ == render_chars(self@),
    {
        proof {
            self.lemma_repr();
        }
        let rows = self.data.len();
        let cols = self.data[0].len();
        let mut s = String::new();
        let mut i: usize = 0;
        proof {
            assert(self@.take(0) =~= Seq::<Seq<int>>::empty());
        }
        while i < rows
            invariant
                i <= rows,
                self.wf(),
                rows == self.data@.len(),
                rows == self@.len(),
                cols == cols_of(self@),
                s@ == render_chars(self@.take(i as int)),
            decreases rows - i,
        {
            proof {
                self.lemma_repr();
                assert(self@[i as int].len() == self@[0].len());
                reveal_strlit("[");
                assert("["@ =~= seq!['[']);
                assert(self@[i as int].take(0) =~= Seq::<int>::empty());
            }
            let ghost row_prefix = render_chars(self@.take(i as int));
            s.append("[");
            proof {
                assert(s@ =~= row_prefix + seq!['['] + entries_chars(self@[i as int].take(0)));
            }
            let mut j: usize = 0;
            while j < cols
                invariant
                    j <= cols,
                    i < rows,
                    self.wf(),
                    rows == self.data@.len(),
                    rows == self@.len(),
                    cols == cols_of(self@),
                    self@[i as int].len() == cols,
                    cols == self.data@[i as int]@.len(),
                    row_prefix == render_chars(self@.take(i as int)),
                    s@ == row_prefix + seq!['['] + entries_chars(self@[i as int].take(j as int)),
                decreases cols - j,
            {
                if j > 0 {
                    proof {
                        reveal_strlit(", ");
                        assert((", ")@ =~= seq![',', ' ']);
                    }
                    s.append(", ");
                }
                proof {
                    self.lemma_repr();
                    assert(self@[i as int][j as int] == self.data@[i as int]@[j as int] as int);
                }
                push_entry(&mut s, self.data[i][j]);
                proof {
                    lemma_entries_prefix(self@[i as int], j as int);
                    assert(s@ =~= row_prefix + seq!['['] + entries_chars(
                        self@[i as int].take(j as int + 1),
                    ));
                }
                j += 1;
            }
            proof {
                reveal_strlit("]\n");
                assert(("]\n")@ =~= seq![']', '\n']);
            }
            s.append("]\n");
            proof {
                assert(self@[i as int].take(cols as int) =~= self@[i as int]);
                lemma_render_prefix(self@, i as int);
                assert(s@ =~= render_chars(self@.take(i as int + 1)));
            }
            i += 1;
        }
        proof {
            assert(self@.take(rows as int) =~= self@);
        }
        s
    }

    /// In-place matrix-scalar operation: `scalar_op`, applied destructively.
    pub fn scalar_op_assign(&mut self, op: ScalarOp, s: i64)
        requires
            old(self).wf(),
            scalar_feasible(op, old(self)@, s as int),
        ensures
            final(self).wf(),
            final(self)@ == mat_scalar(op, old(self)@, s as int),
    {
        let m = self.scalar_op(op, s);
        *self = m;
    }
}

impl PartialEq for Matrix {
    /// Two matrices are equal exactly when they have identical extents
    /// and identical entries at every position.
    fn eq(&self, other: &Matrix) -> (r: bool) {
        proof {
            self.lemma_repr();
            other.lemma_repr();
        }
        if self.data.len() != other.data.len() {
            return false;
        }
        let n = self.data.len();
        let mut i: usize = 0;
        while i < n
            invariant
                i <= n,
                n == self.data@.len(),
                n == other.data@.len(),
                self@.len() == n,
                other@.len() == n,
                forall|i2: int| 0 <= i2 < i ==> #[trigger] self@[i2] == other@[i2],
            decreases n - i,
        {
            proof {
                self.lemma_repr();
                other.lemma_repr();
            }
            let c = self.data[i].len();
            if c != other.data[i].len() {
                proof {
                    assert(self@[i as int].len() != other@[i as int].len());
                    assert(self@ != other@);
                }
                return false;
            }
            let mut j: usize = 0;
            while j < c
                invariant
                    j <= c,
                    i < n,
                    n == self.data@.len(),
                    n == other.data@.len(),
                    self@.len() == n,
                    other@.len() == n,
                    c == self.data@[i as int]@.len(),
                    c == other.data@[i as int]@.len(),
                    self@[i as int].len() == c,
                    other@[i as int].len() == c,
                    forall|j2: int|
                        0 <= j2 < j ==> #[trigger] self@[i as int][j2] == other@[i as int][j2],
                decreases c - j,
            {
                proof {
                    self.lemma_repr();
                    other.lemma_repr();
                }
                if self.data[i][j] != other.data[i][j] {
                    proof {
                        assert(self@[i as int][j as int] == self.data@[i as int]@[j as int] as int);
                        assert(other@[i as int][j as int] == other.data@[i as int]@[
                            j as int] as int);
                        assert(self@[i as int][j as int] != other@[i as int][j as int]);
                        assert(self@ != other@);
                    }
                    return false;
                }
                j += 1;
            }
            proof {
                assert(self@[i as int] =~= other@[i as int]);
            }
            i += 1;
        }
        proof {
            assert(self@ =~= other@);
        }
        true
    }
}

impl vstd::std_specs::cmp::PartialEqSpecImpl for Matrix {
    open spec fn obeys_eq_spec() -> bool {
        true
    }

    open spec fn eq_spec(&self, other: &Matrix) -> bool {
        self@ == other@
    }
}

/// One entry divided by a nonzero scalar, truncating toward zero as
/// machine division does.
fn div_entry(a: i64, s: i64) -> (r: i64)
    requires
        s != 0,
        in_i64(div_trunc(a as int, s as int)),
    ensures
        r as int == div_trunc(a as int, s as int),
{
    let na: u64 = if a < 0 {
        ((-(a + 1)) as u64) + 1
    } else {
        a as u64
    };
    let ns: u64 = if s < 0 {
        ((-(s + 1)) as u64) + 1
    } else {
        s as u64
    };
    proof {
        assert(na as int == abs_of(a as int));
        assert(ns as int == abs_of(s as int));
    }
    let q = na / ns;
    if (a < 0) != (s < 0) {
        if q >= 0x8000_0000_0000_0000u64 {
            proof {
                assert(q == 0x8000_0000_0000_0000);
            }
            i64::MIN
        } else {
            -(q as i64)
        }
    } else {
        q as i64
    }
}

} // verus!
