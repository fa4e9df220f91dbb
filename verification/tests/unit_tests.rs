use small_matrix::constants::{i_2, i_3, i_4, identity, r180_2, r270_2, r90_2};
use small_matrix::matrix::{Matrix, MatrixError, ScalarOp};

fn m(rows: Vec<Vec<i64>>) -> Matrix {
    Matrix::new(rows).unwrap()
}

#[test]
fn i_2_test() {
    let matrix = m(vec![vec![1, 2], vec![3, 4]]);

    assert_eq!(matrix.mul(&i_2()), i_2().mul(&matrix));
    assert_eq!(matrix.mul(&i_2()), matrix);
}

#[test]
fn i_3_test() {
    let matrix = m(vec![vec![1, 2, 3], vec![4, 5, 6], vec![7, 8, 9]]);

    assert_eq!(matrix.mul(&i_3()), i_3().mul(&matrix));
    assert_eq!(matrix.mul(&i_3()), matrix);
}

#[test]
fn i_4_test() {
    let matrix = m(vec![
        vec![1, 2, 3, 4],
        vec![5, 6, 7, 8],
        vec![9, 10, 11, 12],
        vec![13, 14, 15, 16],
    ]);

    assert_eq!(matrix.mul(&i_4()), i_4().mul(&matrix));
    assert_eq!(matrix.mul(&i_4()), matrix);
}

#[test]
fn r90_2_test() {
    let matrix = m(vec![vec![1], vec![2]]);

    let rotated = m(vec![vec![-2], vec![1]]);

    assert_eq!(r90_2().mul(&matrix), rotated);
}

#[test]
fn r180_2_test() {
    let matrix = m(vec![vec![1], vec![2]]);

    let rotated = m(vec![vec![-1], vec![-2]]);

    assert_eq!(r180_2().mul(&matrix), rotated);
}

#[test]
fn r270_2_test() {
    let matrix = m(vec![vec![1], vec![2]]);

    let rotated = m(vec![vec![2], vec![-1]]);

    assert_eq!(r270_2().mul(&matrix), rotated);
}

#[test]
fn e2_vector_matrix_multiplication() {
    let matrix = m(vec![vec![1, 2], vec![3, 4]]);

    let e2_vector = m(vec![vec![0], vec![1]]);

    let result = m(vec![vec![2], vec![4]]);

    assert_eq!(matrix.mul(&e2_vector), result);
}

#[test]
fn e3_vector_matrix_multiplication() {
    let matrix = m(vec![vec![1, 2, 3], vec![4, 5, 6], vec![7, 8, 9]]);

    let e3_vector = m(vec![vec![0], vec![0], vec![1]]);

    let result = m(vec![vec![3], vec![6], vec![9]]);

    assert_eq!(matrix.mul(&e3_vector), result);
}

#[test]
fn new_zero_row_count_fails() {
    assert_eq!(Matrix::new(vec![]), Err(MatrixError::EmptyDimension));
}

#[test]
fn new_zero_column_count_fails() {
    assert_eq!(
        Matrix::new(vec![vec![], vec![]]),
        Err(MatrixError::EmptyDimension)
    );
}

#[test]
fn new_preserves_entries() {
    let matrix = m(vec![vec![2, 3], vec![5, 8], vec![7, 9]]);
    assert_eq!(matrix.size(), (3, 2));
    assert_eq!(matrix.get((0, 0)), Some(2));
    assert_eq!(matrix.get((0, 1)), Some(3));
    assert_eq!(matrix.get((1, 0)), Some(5));
    assert_eq!(matrix.get((1, 1)), Some(8));
    assert_eq!(matrix.get((2, 0)), Some(7));
    assert_eq!(matrix.get((2, 1)), Some(9));
}

#[test]
fn get_out_of_bounds_is_none() {
    let matrix = m(vec![vec![1, 2], vec![3, 4]]);
    assert_eq!(matrix.get((2, 0)), None);
    assert_eq!(matrix.get((0, 2)), None);
    assert_eq!(matrix.get((7, 7)), None);
}

#[test]
fn zeros_and_fill() {
    let z = Matrix::zeros(5, 4);
    assert_eq!(z.size(), (5, 4));
    assert_eq!(z.get((4, 3)), Some(0));

    let threes = Matrix::fill(3, 2, 3);
    assert_eq!(threes.size(), (3, 2));
    assert_eq!(threes, m(vec![vec![3, 3], vec![3, 3], vec![3, 3]]));
}

#[test]
fn transpose_swaps_extents_and_entries() {
    let matrix = m(vec![vec![1, 2, 3], vec![4, 5, 6]]);
    let t = matrix.transpose();
    assert_eq!(t.size(), (3, 2));
    assert_eq!(t, m(vec![vec![1, 4], vec![2, 5], vec![3, 6]]));
}

#[test]
fn transpose_is_an_involution() {
    let matrix = m(vec![vec![1, 2, 3], vec![4, 5, 6]]);
    assert_eq!(matrix.transpose().transpose(), matrix);
}

#[test]
fn swap_rows_exchanges_rows() {
    let mut matrix = m(vec![vec![1, 3], vec![2, 4]]);
    matrix.swap_rows(0, 1);
    assert_eq!(matrix.get((0, 0)), Some(2));
    assert_eq!(matrix, m(vec![vec![2, 4], vec![1, 3]]));
}

#[test]
fn for_each_transforms_every_entry() {
    let mut fives = Matrix::fill(2, 4, 5);
    fives.for_each(|element| element + 2);
    assert_eq!(fives.get((0, 0)), Some(7));
    assert_eq!(fives, Matrix::fill(2, 4, 7));
}

#[test]
fn add_and_sub_are_entrywise() {
    let a = m(vec![vec![1, 2], vec![3, 4]]);
    let b = m(vec![vec![10, 20], vec![30, 40]]);
    assert_eq!(a.add(&b), m(vec![vec![11, 22], vec![33, 44]]));
    assert_eq!(b.sub(&a), m(vec![vec![9, 18], vec![27, 36]]));
}

#[test]
fn add_sub_round_trip() {
    let a = m(vec![vec![1, -2], vec![3, -4]]);
    let b = m(vec![vec![7, 11], vec![-13, 17]]);
    assert_eq!(a.add(&b).sub(&b), a);
}

#[test]
fn assign_operations_mutate_in_place() {
    let mut a = m(vec![vec![1, 2], vec![3, 4]]);
    let b = m(vec![vec![1, 1], vec![1, 1]]);
    a.add_assign(&b);
    assert_eq!(a, m(vec![vec![2, 3], vec![4, 5]]));
    a.sub_assign(&b);
    assert_eq!(a, m(vec![vec![1, 2], vec![3, 4]]));
    a.scalar_op_assign(ScalarOp::Mul, 10);
    assert_eq!(a, m(vec![vec![10, 20], vec![30, 40]]));
    a.scalar_op_assign(ScalarOp::Div, 10);
    assert_eq!(a, m(vec![vec![1, 2], vec![3, 4]]));
}

#[test]
fn scalar_operations_are_entrywise() {
    let a = m(vec![vec![1, -2], vec![3, 0]]);
    assert_eq!(a.add_scalar(5), m(vec![vec![6, 3], vec![8, 5]]));
    assert_eq!(a.sub_scalar(1), m(vec![vec![0, -3], vec![2, -1]]));
    assert_eq!(a.mul_scalar(-2), m(vec![vec![-2, 4], vec![-6, 0]]));
}

#[test]
fn scalar_division_truncates_toward_zero() {
    let a = m(vec![vec![7, -7], vec![9, -9]]);
    assert_eq!(a.div_scalar(2), m(vec![vec![3, -3], vec![4, -4]]));
    assert_eq!(a.div_scalar(-2), m(vec![vec![-3, 3], vec![-4, 4]]));
}

#[test]
fn scalar_multiply_divide_round_trip() {
    let a = m(vec![vec![1, -2], vec![3, -4]]);
    assert_eq!(a.mul_scalar(7).div_scalar(7), a);
    assert_eq!(a.mul_scalar(-3).div_scalar(-3), a);
}

#[test]
fn product_example() {
    let a = m(vec![vec![1, 2], vec![3, 4]]);
    assert_eq!(a.mul(&a), m(vec![vec![7, 10], vec![15, 22]]));
}

#[test]
fn identity_matches_named_constants() {
    assert_eq!(identity(2), i_2());
    assert_eq!(identity(3), i_3());
    assert_eq!(identity(4), i_4());
    assert_eq!(i_3().get((1, 1)), Some(1));
    assert_eq!(i_3().get((1, 2)), Some(0));
}

#[test]
fn equality_requires_identical_extents() {
    let a = m(vec![vec![1, 2], vec![3, 4]]);
    let b = m(vec![vec![1, 2, 3], vec![4, 5, 6]]);
    assert_ne!(a, b);
    let c = m(vec![vec![1, 2], vec![3, 5]]);
    assert_ne!(a, c);
    let d = m(vec![vec![1, 2], vec![3, 4]]);
    assert_eq!(a, d);
}

#[test]
fn render_lists_rows_line_by_line() {
    let a = m(vec![vec![1, 2], vec![3, 4]]);
    assert_eq!(a.render(), "[1, 2]\n[3, 4]\n");

    let b = m(vec![vec![-1, 0, 10], vec![234, -56, 7]]);
    assert_eq!(b.render(), "[-1, 0, 10]\n[234, -56, 7]\n");

    let c = m(vec![vec![i64::MIN, i64::MAX]]);
    assert_eq!(
        c.render(),
        "[-9223372036854775808, 9223372036854775807]\n"
    );
}

#[test]
fn basis_extraction_on_rectangular_matrix() {
    let a = m(vec![vec![1, 2, 3], vec![4, 5, 6]]);
    let e1 = m(vec![vec![0], vec![1], vec![0]]);
    assert_eq!(a.mul(&e1), m(vec![vec![2], vec![5]]));
}
