use dense_matrix::{Matrix, MatrixError};

fn plus(x: f64, y: f64) -> f64 {
    x + y
}

fn minus(x: f64, y: f64) -> f64 {
    x - y
}

fn step(acc: f64, x: f64, y: f64) -> f64 {
    acc + x * y
}

fn render(x: f64) -> String {
    x.to_string()
}

#[test]
fn matrix_addition() {
    let a = 12.5;
    let b = 11.0;
    let c = 5.5;
    let d = 15.97;

    //2x2 matrices
    let matrix_a = Matrix::new(&*vec![a, b, c, d], 2, 2).unwrap();
    let matrix_b = Matrix::new(&*vec![d, c, b, a], 2, 2).unwrap();

    assert_eq!(
        matrix_a.add(&matrix_b, &plus).unwrap(),
        Matrix::new(&*vec![a + d, b + c, c + b, d + a], 2, 2).unwrap()
    )
}

#[test]
fn matrix_subtraction() {
    let a = 12.5;
    let b = 11.0;
    let c = 5.5;
    let d = 15.97;

    //2x2 matrices
    let matrix_a = Matrix::new(&*vec![a, b, c, d], 2, 2).unwrap();
    let matrix_b = Matrix::new(&*vec![d, c, b, a], 2, 2).unwrap();

    assert_eq!(
        matrix_a.sub(&matrix_b, &minus).unwrap(),
        Matrix::new(&*vec![a - d, b - c, c - b, d - a], 2, 2).unwrap()
    )
}

#[test]
fn matrix_multiplication() {
    let a = 12.5;
    let b = 11.0;
    let c = 5.5;
    let d = 15.97;

    //2x2 matrices
    let matrix_a = Matrix::new(&*vec![a, b, c, d], 2, 2).unwrap();
    let matrix_b = Matrix::new(&*vec![d, c, b, a], 2, 2).unwrap();

    assert_eq!(
        matrix_a.mul(&matrix_b, 0.0, &step).unwrap(),
        Matrix::new(
            &*vec![
                (a * d + b * b),
                (a * c + a * b),
                (c * d + b * d),
                (c * c + a * d)
            ],
            2,
            2
        )
        .unwrap()
    )
}

#[test]
fn iterator_test() {
    let a = 12.5;
    let b = 11.0;
    let c = 5.5;
    let d = 15.97;

    //2x2 matrices
    let matrix_a = Matrix::new(&*vec![a, b, c, d], 2, 2).unwrap();
    let matrix_b = Matrix::new(&*vec![d, c, b, a], 2, 2).unwrap();

    let mult = matrix_a.mul(&matrix_b, 0.0, &step).unwrap();
    let mult2 = mult.clone();

    let mut index = 0;
    for e in mult.into_iter() {
        assert_eq!(&e, &mult2.data()[index]);
        index += 1;
    }
    assert_eq!(index, 4);
}

fn scenario() -> (Matrix<f64>, Matrix<f64>) {
    let a = Matrix::new(&[12.5, 11.0, 5.5, 15.97], 2, 2).unwrap();
    let b = Matrix::new(&[15.97, 5.5, 11.0, 12.5], 2, 2).unwrap();
    (a, b)
}

#[test]
fn scenario_sum_and_difference() {
    let (a, b) = scenario();
    let sum = a.add(&b, &plus).unwrap();
    assert_eq!(sum.data(), &vec![12.5 + 15.97, 16.5, 16.5, 15.97 + 12.5]);
    assert!((sum.get(1, 1).unwrap() - 28.47).abs() < 1e-9);
    let diff = a.sub(&b, &minus).unwrap();
    assert_eq!(diff.data(), &vec![12.5 - 15.97, 5.5, -5.5, 15.97 - 12.5]);
    assert!((diff.get(1, 1).unwrap() + 3.47).abs() < 1e-9);
    assert!((diff.get(2, 2).unwrap() - 3.47).abs() < 1e-9);
}

#[test]
fn scenario_product() {
    let (a, b) = scenario();
    let p = a.mul(&b, 0.0, &step).unwrap();
    assert_eq!(p.rows(), 2);
    assert_eq!(p.columns(), 2);
    assert_eq!(
        p.data(),
        &vec![
            12.5 * 15.97 + 11.0 * 11.0,
            12.5 * 5.5 + 11.0 * 12.5,
            5.5 * 15.97 + 15.97 * 11.0,
            5.5 * 5.5 + 15.97 * 12.5
        ]
    );
}

#[test]
fn scenario_display() {
    let (a, _) = scenario();
    assert_eq!(a.to_display_string(&render), "[12.5, 11]\n[5.5, 15.97]\n");
}

#[test]
fn display_shapes() {
    let column = Matrix::from_column_vec(&[1.0, 2.0]);
    assert_eq!(column.to_display_string(&render), "[1]\n[2]\n");
    let row = Matrix::from_row_vec(&[1.0, 2.0, 3.0]);
    assert_eq!(row.to_display_string(&render), "[1, 2, 3]\n");
    let empty = Matrix::<f64>::new(&[], 0, 0).unwrap();
    assert_eq!(empty.to_display_string(&render), "");
    let no_columns = Matrix::<f64>::new(&[], 3, 0).unwrap();
    assert_eq!(no_columns.to_display_string(&render), "");
}

#[test]
fn add_then_sub_restores_exact_values() {
    let a = Matrix::new(&[1.5, -2.0, 4.25, 8.0, 0.0, 3.0], 2, 3).unwrap();
    let b = Matrix::new(&[0.5, 2.0, -1.25, 1.0, 7.0, -3.0], 2, 3).unwrap();
    let sum = a.add(&b, &plus).unwrap();
    assert_eq!(sum.sub(&b, &minus).unwrap(), a);
    assert_eq!(sum, b.add(&a, &plus).unwrap());
    let diff = a.sub(&b, &minus).unwrap();
    assert_eq!(diff.add(&b, &plus).unwrap(), a);
}

#[test]
fn integer_elements() {
    let a = Matrix::new(&[1i64, 2, 3, 4, 5, 6], 2, 3).unwrap();
    let b = Matrix::new(&[7i64, 8, 9, 10, 11, 12], 3, 2).unwrap();
    let p = a.mul(&b, 0, &|acc: i64, x: i64, y: i64| acc + x * y).unwrap();
    assert_eq!(p.rows(), 2);
    assert_eq!(p.columns(), 2);
    assert_eq!(p.data(), &vec![58, 64, 139, 154]);
    let sum = a.add(&a, &|x: i64, y: i64| x + y).unwrap();
    assert_eq!(sum.data(), &vec![2, 4, 6, 8, 10, 12]);
}

#[test]
fn product_of_non_square_has_standard_shape() {
    let a = Matrix::new(&[1.0, 2.0, 3.0], 1, 3).unwrap();
    let b = Matrix::new(&[4.0, 5.0, 6.0], 3, 1).unwrap();
    let p = a.mul(&b, 0.0, &step).unwrap();
    assert_eq!((p.rows(), p.columns()), (1, 1));
    assert_eq!(p.get(1, 1), Ok(32.0));
    let q = b.mul(&a, 0.0, &step).unwrap();
    assert_eq!((q.rows(), q.columns()), (3, 3));
    assert_eq!(q.data(), &vec![4.0, 8.0, 12.0, 5.0, 10.0, 15.0, 6.0, 12.0, 18.0]);
}

#[test]
fn product_entry_is_row_dot_column() {
    let a = Matrix::new(&[2.0, -1.0, 0.5, 3.0, 4.0, 1.0], 2, 3).unwrap();
    let b = Matrix::new(&[1.0, 2.0, 0.0, -1.0, 3.0, 5.0], 3, 2).unwrap();
    let p = a.mul(&b, 0.0, &step).unwrap();
    for i in 1..=2 {
        for j in 1..=2 {
            let row = a.get_row(i).unwrap();
            let column = b.get_column(j).unwrap();
            let d = Matrix::dot_product(row, column, 0.0, &step).unwrap();
            assert_eq!(p.get(i, j).unwrap(), d);
        }
    }
    let sq = a.mul(&b, 0.0, &step).unwrap();
    let sq2 = sq.mul(&sq, 0.0, &step).unwrap();
    let d = Matrix::dot_product(sq.get_row(2).unwrap(), sq.get_column(1).unwrap(), 0.0, &step);
    assert_eq!(sq2.get(2, 1), d);
}

#[test]
fn iteration_yields_row_major_data() {
    let m = Matrix::new(&[1.0, 2.0, 3.0, 4.0, 5.0, 6.0], 3, 2).unwrap();
    let items: Vec<f64> = m.clone().into_iter().collect();
    assert_eq!(items.len(), m.rows() * m.columns());
    assert_eq!(items, vec![1.0, 2.0, 3.0, 4.0, 5.0, 6.0]);
}

#[test]
fn shape_mismatch_on_construction() {
    assert_eq!(Matrix::new(&[1.0, 2.0, 3.0], 2, 2), Err(MatrixError::ShapeMismatch));
    assert_eq!(Matrix::new(&[1.0, 2.0, 3.0, 4.0, 5.0], 2, 2), Err(MatrixError::ShapeMismatch));
    assert_eq!(Matrix::<f64>::new(&[], 1, 1), Err(MatrixError::ShapeMismatch));
    assert_eq!(Matrix::new(&[1.0], usize::MAX, 2), Err(MatrixError::ShapeMismatch));
    assert!(Matrix::new(&[1.0, 2.0, 3.0, 4.0], 4, 1).is_ok());
}

#[test]
fn vector_constructors() {
    let r = Matrix::from_row_vec(&[1.0, 2.0, 3.0]);
    assert_eq!((r.rows(), r.columns()), (1, 3));
    let c = Matrix::from_column_vec(&[1.0, 2.0, 3.0]);
    assert_eq!((c.rows(), c.columns()), (3, 1));
    assert_eq!(c.get_column(1), Ok(vec![1.0, 2.0, 3.0]));
    let er = Matrix::<f64>::from_row_vec(&[]);
    assert_eq!((er.rows(), er.columns()), (1, 0));
    let ec = Matrix::<f64>::from_column_vec(&[]);
    assert_eq!((ec.rows(), ec.columns()), (0, 1));
}

#[test]
fn get_and_set_bounds() {
    let mut m = Matrix::new(&[1.0, 2.0, 3.0, 4.0, 5.0, 6.0], 2, 3).unwrap();
    assert_eq!(m.get(2, 1), Ok(4.0));
    assert_eq!(m.get(1, 3), Ok(3.0));
    assert_eq!(m.get(0, 1), Err(MatrixError::IndexOutOfBounds));
    assert_eq!(m.get(1, 0), Err(MatrixError::IndexOutOfBounds));
    assert_eq!(m.get(3, 1), Err(MatrixError::IndexOutOfBounds));
    assert_eq!(m.get(1, 4), Err(MatrixError::IndexOutOfBounds));
    assert_eq!(m.set(9.0, 2, 3), Ok(()));
    assert_eq!(m.get(2, 3), Ok(9.0));
    assert_eq!(m.set(9.0, 0, 1), Err(MatrixError::IndexOutOfBounds));
    assert_eq!(m.set(9.0, 3, 1), Err(MatrixError::IndexOutOfBounds));
    assert_eq!(m.set(9.0, 1, 4), Err(MatrixError::IndexOutOfBounds));
    assert_eq!(m.data(), &vec![1.0, 2.0, 3.0, 4.0, 5.0, 9.0]);
}

#[test]
fn rows_and_columns() {
    let m = Matrix::new(&[1.0, 2.0, 3.0, 4.0, 5.0, 6.0], 2, 3).unwrap();
    assert_eq!(m.get_row(2), Ok(vec![4.0, 5.0, 6.0]));
    assert_eq!(m.get_column(2), Ok(vec![2.0, 5.0]));
    assert_eq!(m.get_row(0), Err(MatrixError::IndexOutOfBounds));
    assert_eq!(m.get_row(3), Err(MatrixError::IndexOutOfBounds));
    assert_eq!(m.get_column(0), Err(MatrixError::IndexOutOfBounds));
    assert_eq!(m.get_column(4), Err(MatrixError::IndexOutOfBounds));
}

#[test]
fn dot_product_values_and_length_mismatch() {
    assert_eq!(Matrix::dot_product(vec![1.0, 2.0, 3.0], vec![4.0, 5.0, 6.0], 0.0, &step), Ok(32.0));
    assert_eq!(Matrix::dot_product(vec![], vec![], 0.0, &step), Ok(0.0));
    assert_eq!(
        Matrix::dot_product(vec![1.0, 2.0], vec![1.0], 0.0, &step),
        Err(MatrixError::LengthMismatch)
    );
}

#[test]
fn dimension_mismatch_in_operators() {
    let a = Matrix::new(&[1.0, 2.0, 3.0, 4.0, 5.0, 6.0], 2, 3).unwrap();
    let b = Matrix::new(&[1.0, 2.0, 3.0, 4.0, 5.0, 6.0], 3, 2).unwrap();
    assert_eq!(a.add(&b, &plus), Err(MatrixError::DimensionMismatch));
    assert_eq!(a.sub(&b, &minus), Err(MatrixError::DimensionMismatch));
    assert_eq!(a.mul(&a, 0.0, &step), Err(MatrixError::DimensionMismatch));
    assert!(a.mul(&b, 0.0, &step).is_ok());
}
