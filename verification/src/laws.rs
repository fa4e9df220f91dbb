//! The library's algebraic laws, stated over the mathematical model
//! and proved once and for all: identity and basis-vector
//! multiplication, the transpose involution, the rotation formulas,
//! and the add/sub and scale/divide cancellation laws.

use vstd::prelude::*;

use vstd::arithmetic::div_mod::{lemma_div_multiples_vanish, lemma_div_of0};

use crate::constants::{rot180_mat, rot270_mat, rot90_mat};
use crate::matrix::{
    abs_of, col, cols_of, div_trunc, dot, identity_mat, is_matrix, mat_add, mat_mul, mat_scalar,
    mat_sub, rows_of, scalar_apply, transpose_of, unit_row, ScalarOp,
};

verus! {

/// The dot product with an all-zero vector is zero.
proof fn lemma_dot_zero(r: Seq<int>, c: Seq<int>)
    requires
        r.len() == c.len(),
        forall|k: int| 0 <= k < c.len() ==> c[k] == 0,
    ensures
        dot(r, c) == 0,
    decreases r.len(),
{
    if r.len() > 0 {
        assert forall|k: int| 0 <= k < c.drop_last().len() implies c.drop_last()[k] == 0 by {
            assert(c.drop_last()[k] == c[k]);
        }
        lemma_dot_zero(r.drop_last(), c.drop_last());
    }
}

/// Dotting with a standard unit vector extracts one coordinate.
proof fn lemma_dot_unit(r: Seq<int>, j: int)
    requires
        0 <= j < r.len(),
    ensures
        dot(r, unit_row(r.len() as int, j)) == r[j],
    decreases r.len(),
{
    let n = r.len() as int;
    let u = unit_row(n, j);
    if j == n - 1 {
        assert(u.last() == 1);
        assert forall|k: int| 0 <= k < u.drop_last().len() implies u.drop_last()[k] == 0 by {
            assert(u.drop_last()[k] == u[k]);
        }
        lemma_dot_zero(r.drop_last(), u.drop_last());
    } else {
        assert(u.drop_last() =~= unit_row(n - 1, j));
        lemma_dot_unit(r.drop_last(), j);
        assert(r.drop_last()[j] == r[j]);
        assert(u.last() == 0);
    }
}

/// The dot product is symmetric.
proof fn lemma_dot_comm(r: Seq<int>, c: Seq<int>)
    requires
        r.len() == c.len(),
    ensures
        dot(r, c) == dot(c, r),
    decreases r.len(),
{
    if r.len() > 0 {
        lemma_dot_comm(r.drop_last(), c.drop_last());
    }
}

/// Multiplying by the identity of the matching order, on either side,
/// returns the matrix unchanged.
pub proof fn lemma_identity_mul(a: Seq<Seq<int>>)
    requires
        is_matrix(a),
    ensures
        mat_mul(a, identity_mat(cols_of(a))) == a,
        mat_mul(identity_mat(rows_of(a)), a) == a,
{
    let m = rows_of(a);
    let n = cols_of(a);
    let i_n = identity_mat(n);
    let i_m = identity_mat(m);
    assert(i_n[0].len() == n);
    assert forall|i: int, j: int| 0 <= i < m && 0 <= j < n implies mat_mul(a, i_n)[i][j]
        == a[i][j] by {
        assert forall|k: int| 0 <= k < n implies col(i_n, k) =~= unit_row(n, k) by {
            assert forall|x: int| 0 <= x < n implies col(i_n, k)[x] == unit_row(n, k)[x] by {
                assert(i_n[x] == unit_row(n, x));
            }
        }
        assert(a[i].len() == n);
        lemma_dot_unit(a[i], j);
        assert(mat_mul(a, i_n)[i][j] == dot(a[i], col(i_n, j)));
    }
    assert(mat_mul(a, i_n) =~~= a);
    assert(i_m[0].len() == m);
    assert forall|i: int, j: int| 0 <= i < m && 0 <= j < n implies mat_mul(i_m, a)[i][j]
        == a[i][j] by {
        assert(i_m[i] == unit_row(m, i));
        assert(col(a, j).len() == m);
        lemma_dot_comm(unit_row(m, i), col(a, j));
        lemma_dot_unit(col(a, j), i);
        assert(col(a, j)[i] == a[i][j]);
        assert(mat_mul(i_m, a)[i][j] == dot(i_m[i], col(a, j)));
    }
    assert(mat_mul(i_m, a) =~~= a);
}

/// Transpose is an involution: transposing twice returns the matrix.
pub proof fn lemma_transpose_involution(m: Seq<Seq<int>>)
    requires
        is_matrix(m),
    ensures
        transpose_of(transpose_of(m)) == m,
{
    let t = transpose_of(m);
    assert(t[0] == col(m, 0));
    assert(t[0].len() == m.len());
    assert forall|i: int, j: int|
        0 <= i < m.len() && 0 <= j < m[0].len() implies transpose_of(t)[i][j] == m[i][j] by {
        assert(transpose_of(t)[i] == col(t, i));
        assert(col(t, i)[j] == t[j][i]);
        assert(t[j] == col(m, j));
        assert(col(m, j)[i] == m[i][j]);
    }
    assert forall|i: int| 0 <= i < m.len() implies transpose_of(t)[i].len() == m[i].len() by {
        assert(transpose_of(t)[i] == col(t, i));
        assert(m[i].len() == m[0].len());
    }
    assert(transpose_of(t) =~~= m);
}

/// Dot product of two concrete pairs.
proof fn lemma_dot2(a0: int, a1: int, b0: int, b1: int)
    ensures
        dot(seq![a0, a1], seq![b0, b1]) == a0 * b0 + a1 * b1,
{
    let r = seq![a0, a1];
    let c = seq![b0, b1];
    assert(r.drop_last() =~= seq![a0]);
    assert(c.drop_last() =~= seq![b0]);
    assert(seq![a0].drop_last() =~= Seq::<int>::empty());
    assert(seq![b0].drop_last() =~= Seq::<int>::empty());
    assert(dot(Seq::<int>::empty(), Seq::<int>::empty()) == 0);
    assert(dot(seq![a0], seq![b0]) == a0 * b0);
    assert(dot(r, c) == a0 * b0 + a1 * b1);
}

/// Column vector `[x, y]` as a 2×1 matrix.
pub open spec fn col_vec2(x: int, y: int) -> Seq<Seq<int>> {
    seq![seq![x], seq![y]]
}

/// Applying the 90° rotation to the column vector `[x, y]` yields `[-y, x]`.
pub proof fn lemma_rotation_90(x: int, y: int)
    ensures
        mat_mul(rot90_mat(), col_vec2(x, y)) == col_vec2(-y, x),
{
    let b = col_vec2(x, y);
    let p = mat_mul(rot90_mat(), b);
    assert(col(b, 0) =~= seq![x, y]);
    lemma_dot2(0, -1, x, y);
    lemma_dot2(1, 0, x, y);
    assert(p[0][0] == dot(seq![0int, -1int], seq![x, y]));
    assert(p[1][0] == dot(seq![1int, 0int], seq![x, y]));
    assert(p =~~= col_vec2(-y, x));
}

/// Applying the 180° rotation to the column vector `[x, y]` yields `[-x, -y]`.
pub proof fn lemma_rotation_180(x: int, y: int)
    ensures
        mat_mul(rot180_mat(), col_vec2(x, y)) == col_vec2(-x, -y),
{
    let b = col_vec2(x, y);
    let p = mat_mul(rot180_mat(), b);
    assert(col(b, 0) =~= seq![x, y]);
    lemma_dot2(-1, 0, x, y);
    lemma_dot2(0, -1, x, y);
    assert(p[0][0] == dot(seq![-1int, 0int], seq![x, y]));
    assert(p[1][0] == dot(seq![0int, -1int], seq![x, y]));
    assert(p =~~= col_vec2(-x, -y));
}

/// Applying the 270° rotation to the column vector `[x, y]` yields `[y, -x]`.
pub proof fn lemma_rotation_270(x: int, y: int)
    ensures
        mat_mul(rot270_mat(), col_vec2(x, y)) == col_vec2(y, -x),
{
    let b = col_vec2(x, y);
    let p = mat_mul(rot270_mat(), b);
    assert(col(b, 0) =~= seq![x, y]);
    lemma_dot2(0, 1, x, y);
    lemma_dot2(-1, 0, x, y);
    assert(p[0][0] == dot(seq![0int, 1int], seq![x, y]));
    assert(p[1][0] == dot(seq![-1int, 0int], seq![x, y]));
    assert(p =~~= col_vec2(y, -x));
}

/// The `j`-th standard basis column vector of dimension `n`: an `n × 1`
/// matrix, all zero except a `1` at row `j`.
pub open spec fn basis_col(n: int, j: int) -> Seq<Seq<int>> {
    Seq::new(n as nat, |i: int| seq![if i == j { 1int } else { 0int }])
}

/// Column `j` of `a` as a column vector (an `m × 1` matrix).
pub open spec fn column_matrix(a: Seq<Seq<int>>, j: int) -> Seq<Seq<int>> {
    Seq::new(a.len(), |i: int| seq![a[i][j]])
}

/// Multiplying an `m × n` matrix by the `j`-th standard basis column
/// vector yields the `j`-th column of the matrix.
pub proof fn lemma_basis_extraction(a: Seq<Seq<int>>, j: int)
    requires
        is_matrix(a),
        0 <= j < cols_of(a),
    ensures
        mat_mul(a, basis_col(cols_of(a), j)) == column_matrix(a, j),
{
    let n = cols_of(a);
    let b = basis_col(n, j);
    assert(b[0].len() == 1);
    assert(col(b, 0) =~= unit_row(n, j));
    assert forall|i: int| 0 <= i < a.len() implies mat_mul(a, b)[i][0] == a[i][j] by {
        assert(a[i].len() == n);
        lemma_dot_unit(a[i], j);
        assert(mat_mul(a, b)[i][0] == dot(a[i], col(b, 0)));
    }
    assert(mat_mul(a, b) =~~= column_matrix(a, j));
}

/// Addition and subtraction are mutual inverses: `(A + B) - B == A`.
pub proof fn lemma_add_sub_cancel(a: Seq<Seq<int>>, b: Seq<Seq<int>>)
    requires
        is_matrix(a),
        is_matrix(b),
        rows_of(a) == rows_of(b),
        cols_of(a) == cols_of(b),
    ensures
        mat_sub(mat_add(a, b), b) == a,
{
    let s = mat_add(a, b);
    assert forall|i: int, j: int|
        0 <= i < a.len() && 0 <= j < a[i].len() implies mat_sub(s, b)[i][j] == a[i][j] by {
        assert(a[i].len() == a[0].len());
        assert(b[i].len() == b[0].len());
        assert(s[i].len() == a[i].len());
        assert(s[i][j] == a[i][j] + b[i][j]);
    }
    assert forall|i: int| 0 <= i < a.len() implies mat_sub(s, b)[i].len() == a[i].len() by {
        assert(s[i].len() == a[i].len());
    }
    assert(mat_sub(s, b) =~~= a);
}

/// Truncating division undoes multiplication: `(e * s) / s == e` for
/// nonzero `s`.
proof fn lemma_div_trunc_cancel(e: int, s: int)
    requires
        s != 0,
    ensures
        div_trunc(e * s, s) == e,
{
    if e == 0 {
        assert(e * s == 0);
        lemma_div_of0(abs_of(s));
    } else if e > 0 && s > 0 {
        assert(e * s > 0) by (nonlinear_arith)
            requires
                e > 0,
                s > 0,
        ;
        assert(e * s == s * e);
        lemma_div_multiples_vanish(e, s);
    } else if e > 0 && s < 0 {
        assert(e * s < 0) by (nonlinear_arith)
            requires
                e > 0,
                s < 0,
        ;
        assert(abs_of(e * s) == (-s) * e) by (nonlinear_arith)
            requires
                e * s < 0,
                s < 0,
        ;
        lemma_div_multiples_vanish(e, -s);
    } else if e < 0 && s > 0 {
        assert(e * s < 0) by (nonlinear_arith)
            requires
                e < 0,
                s > 0,
        ;
        assert(abs_of(e * s) == s * (-e)) by (nonlinear_arith)
            requires
                e * s < 0,
                s > 0,
        ;
        lemma_div_multiples_vanish(-e, s);
    } else {
        assert(e * s > 0) by (nonlinear_arith)
            requires
                e < 0,
                s < 0,
        ;
        assert(abs_of(e * s) == (-s) * (-e)) by (nonlinear_arith)
            requires
                e * s > 0,
                s < 0,
        ;
        lemma_div_multiples_vanish(-e, -s);
    }
}

/// Scalar multiplication and division by the same nonzero scalar are
/// mutual inverses: `(A * s) / s == A`. Over integer entries the
/// round trip is exact.
pub proof fn lemma_scale_div_cancel(a: Seq<Seq<int>>, s: int)
    requires
        is_matrix(a),
        s != 0,
    ensures
        mat_scalar(ScalarOp::Div, mat_scalar(ScalarOp::Mul, a, s), s) == a,
{
    let p = mat_scalar(ScalarOp::Mul, a, s);
    let q = mat_scalar(ScalarOp::Div, p, s);
    assert forall|i: int, j: int| 0 <= i < a.len() && 0 <= j < a[i].len() implies q[i][j]
        == a[i][j] by {
        assert(p[i].len() == a[i].len());
        assert(p[i][j] == scalar_apply(ScalarOp::Mul, a[i][j], s));
        lemma_div_trunc_cancel(a[i][j], s);
        assert(q[i][j] == scalar_apply(ScalarOp::Div, p[i][j], s));
    }
    assert forall|i: int| 0 <= i < a.len() implies q[i].len() == a[i].len() by {
        assert(p[i].len() == a[i].len());
    }
    assert(q =~~= a);
}

} // verus!
