//! Named convenience matrices: the identity matrices of order 2, 3
//! and 4, and the 2×2 rotation matrices for 90°, 180° and 270°
//! counter-clockwise rotation about the origin (acting by
//! left-multiplication on column vectors).

use vstd::prelude::*;

use crate::matrix::{identity_mat, unit_row, Matrix};

verus! {

/// Model of the 2×2 counter-clockwise rotation by 90°.
pub open spec fn rot90_mat() -> Seq<Seq<int>> {
    seq![seq![0, -1], seq![1, 0]]
}

/// Model of the 2×2 rotation by 180°.
pub open spec fn rot180_mat() -> Seq<Seq<int>> {
    seq![seq![-1, 0], seq![0, -1]]
}

/// Model of the 2×2 counter-clockwise rotation by 270°.
pub open spec fn rot270_mat() -> Seq<Seq<int>> {
    seq![seq![0, 1], seq![-1, 0]]
}

/// The identity matrix of order `n`: `1` on the main diagonal and `0`
/// elsewhere.
pub fn identity(n: usize) -> (r: Matrix)
    requires
        1 <= n,
    ensures
        r.wf(),
        r@ == identity_mat(n as int),
{
    let cl = |i: usize, j: usize| -> (e: i64)
        requires
            i < n,
            j < n,
        ensures
            e as int == identity_mat(n as int)[i as int][j as int],
        {
            proof {
                assert(identity_mat(n as int)[i as int] == unit_row(n as int, i as int));
            }
            if i == j {
                1
            } else {
                0
            }
        };
    let m = Matrix::from_fn(n, n, cl);
    proof {
        assert forall|i: int, j: int| 0 <= i < n && 0 <= j < n implies m@[i][j] == identity_mat(
            n as int,
        )[i][j] by {
            assert(call_ensures(cl, (i as usize, j as usize), m@[i][j] as i64));
        }
        assert(m@ =~~= identity_mat(n as int));
    }
    m
}

/// A 2×2 matrix from its four entries, row-major.
fn mat2(a: i64, b: i64, c: i64, d: i64) -> (r: Matrix)
    ensures
        r.wf(),
        r@ == seq![seq![a as int, b as int], seq![c as int, d as int]],
{
    let cl = |i: usize, j: usize| -> (e: i64)
        requires
            i < 2,
            j < 2,
        ensures
            e as int == (seq![seq![a as int, b as int], seq![c as int, d as int]])[i as int][j as int],
        {
            if i == 0 {
                if j == 0 {
                    a
                } else {
                    b
                }
            } else {
                if j == 0 {
                    c
                } else {
                    d
                }
            }
        };
    let m = Matrix::from_fn(2, 2, cl);
    proof {
        let target = seq![seq![a as int, b as int], seq![c as int, d as int]];
        assert forall|i: int, j: int| 0 <= i < 2 && 0 <= j < 2 implies m@[i][j] == target[i][j] by {
            assert(call_ensures(cl, (i as usize, j as usize), m@[i][j] as i64));
        }
        assert(m@ =~~= target);
    }
    m
}

/// The identity matrix of order 2.
pub fn i_2() -> (r: Matrix)
    ensures
        r.wf(),
        r@ == identity_mat(2),
{
    identity(2)
}

/// The identity matrix of order 3.
pub fn i_3() -> (r: Matrix)
    ensures
        r.wf(),
        r@ == identity_mat(3),
{
    identity(3)
}

/// The identity matrix of order 4.
pub fn i_4() -> (r: Matrix)
    ensures
        r.wf(),
        r@ == identity_mat(4),
{
    identity(4)
}

/// The 2×2 rotation matrix for 90° counter-clockwise rotation.
pub fn r90_2() -> (r: Matrix)
    ensures
        r.wf(),
        r@ == rot90_mat(),
{
    let m = mat2(0, -1, 1, 0);
    proof {
        assert(m@ =~~= rot90_mat());
    }
    m
}

/// The 2×2 rotation matrix for 180° rotation.
pub fn r180_2() -> (r: Matrix)
    ensures
        r.wf(),
        r@ == rot180_mat(),
{
    let m = mat2(-1, 0, 0, -1);
    proof {
        assert(m@ =~~= rot180_mat());
    }
    m
}

/// The 2×2 rotation matrix for 270° counter-clockwise rotation.
pub fn r270_2() -> (r: Matrix)
    ensures
        r.wf(),
        r@ == rot270_mat(),
{
    let m = mat2(0, 1, -1, 0);
    proof {
        assert(m@ =~~= rot270_mat());
    }
    m
}

} // verus!
