use nn::{Matrix, MatrixError, Shape};

fn plus(a: f64, b: f64) -> f64 {
    a + b
}

fn minus(a: f64, b: f64) -> f64 {
    a - b
}

fn times(a: f64, b: f64) -> f64 {
    a * b
}

fn mul_add(acc: f64, a: f64, b: f64) -> f64 {
    acc + a * b
}

fn sigmoid(x: f64) -> f64 {
    1.0 / (1.0 + (-x).exp())
}

fn sigmoid_derivative(x: f64) -> f64 {
    x * (1.0 - x)
}

fn m(rows: usize, cols: usize, values: Vec<f64>) -> Matrix<f64> {
    Matrix::new(rows, cols, values).unwrap()
}

#[test]
fn new_column_of_zeros() {
    let a = m(2, 1, vec![0.0, 0.0]);
    assert_eq!(a.rows, 2);
    assert_eq!(a.cols, 1);
    assert_eq!(a.data, vec![vec![0.0], vec![0.0]]);
}

#[test]
fn new_fills_row_major() {
    let a = m(2, 3, vec![1.0, 2.0, 3.0, 4.0, 5.0, 6.0]);
    assert_eq!(a.data, vec![vec![1.0, 2.0, 3.0], vec![4.0, 5.0, 6.0]]);
}

#[test]
fn new_refuses_wrong_count() {
    assert_eq!(Matrix::new(2, 2, vec![1.0, 2.0, 3.0]).unwrap_err(), MatrixError::ShapeError);
    assert_eq!(Matrix::new(1, 2, vec![1.0, 2.0, 3.0]).unwrap_err(), MatrixError::ShapeError);
    assert_eq!(Matrix::new(0, 0, vec![1.0]).unwrap_err(), MatrixError::ShapeError);
}

#[test]
fn new_empty_shapes() {
    let a = m(0, 3, vec![]);
    assert_eq!((a.rows, a.cols), (0, 3));
    assert!(a.data.is_empty());
    let b = m(2, 0, vec![]);
    assert_eq!(b.data, vec![Vec::<f64>::new(), Vec::new()]);
}

#[test]
fn dot_row_by_column() {
    let a = m(1, 2, vec![1.0, 2.0]);
    let b = m(2, 1, vec![3.0, 4.0]);
    let c = a.dot(&b, 0.0, &mul_add).unwrap();
    assert_eq!((c.rows, c.cols), (1, 1));
    assert_eq!(c.data, vec![vec![11.0]]);
}

#[test]
fn dot_two_by_two() {
    let a = m(2, 3, vec![1.0, 2.0, 3.0, 4.0, 5.0, 6.0]);
    let b = m(3, 2, vec![7.0, 8.0, 9.0, 10.0, 11.0, 12.0]);
    let c = a.dot(&b, 0.0, &mul_add).unwrap();
    assert_eq!(c.data, vec![vec![58.0, 64.0], vec![139.0, 154.0]]);
}

#[test]
fn dot_refuses_mismatch() {
    let a = m(2, 3, vec![0.0; 6]);
    let b = m(2, 3, vec![0.0; 6]);
    assert_eq!(
        a.dot(&b, 0.0, &mul_add).unwrap_err(),
        MatrixError::DimensionMismatch {
            expected: Shape { rows: 3, cols: 3 },
            actual: Shape { rows: 2, cols: 3 },
        }
    );
}

#[test]
fn add_and_subtract_refuse_mismatch() {
    let a = m(2, 1, vec![1.0, 2.0]);
    let b = m(1, 2, vec![1.0, 2.0]);
    let expected = MatrixError::DimensionMismatch {
        expected: Shape { rows: 2, cols: 1 },
        actual: Shape { rows: 1, cols: 2 },
    };
    assert_eq!(a.zip_with(&b, &plus).unwrap_err(), expected);
    assert_eq!(a.zip_with(&b, &minus).unwrap_err(), expected);
    let c = m(2, 2, vec![0.0; 4]);
    assert!(a.zip_with(&c, &plus).is_err());
}

#[test]
fn add_then_subtract_round_trip() {
    let a = m(2, 2, vec![0.1, -2.5, 3.75, 1e-3]);
    let b = m(2, 2, vec![7.2, 0.3, -1.1, 42.0]);
    let c = a.zip_with(&b, &plus).unwrap().zip_with(&b, &minus).unwrap();
    assert_eq!((c.rows, c.cols), (2, 2));
    for i in 0..2 {
        for j in 0..2 {
            assert!((c.data[i][j] - a.data[i][j]).abs() < 1e-9);
        }
    }
}

#[test]
fn add_and_subtract_values() {
    let a = m(1, 3, vec![1.0, 2.0, 3.0]);
    let b = m(1, 3, vec![10.0, 20.0, 30.0]);
    assert_eq!(a.zip_with(&b, &plus).unwrap().data, vec![vec![11.0, 22.0, 33.0]]);
    assert_eq!(a.zip_with(&b, &minus).unwrap().data, vec![vec![-9.0, -18.0, -27.0]]);
}

#[test]
fn transpose_of_product() {
    let a = m(2, 3, vec![1.5, -2.0, 0.25, 3.0, 4.0, -1.0]);
    let b = m(3, 2, vec![0.5, 2.0, -3.0, 1.0, 7.0, 0.125]);
    let left = a.dot(&b, 0.0, &mul_add).unwrap().transpose();
    let right = b.transpose().dot(&a.transpose(), 0.0, &mul_add).unwrap();
    assert_eq!((left.rows, left.cols), (2, 2));
    assert_eq!(left.data, right.data);
}

#[test]
fn transpose_swaps_indices() {
    let a = m(2, 3, vec![1.0, 2.0, 3.0, 4.0, 5.0, 6.0]);
    let t = a.transpose();
    assert_eq!((t.rows, t.cols), (3, 2));
    assert_eq!(t.data, vec![vec![1.0, 4.0], vec![2.0, 5.0], vec![3.0, 6.0]]);
}

#[test]
fn activation_of_zero_is_half() {
    let a = m(1, 1, vec![0.0]);
    let s = a.map(&sigmoid);
    assert_eq!((s.rows, s.cols), (1, 1));
    assert_eq!(s.data, vec![vec![0.5]]);
}

#[test]
fn activation_stays_inside_unit_interval() {
    let a = m(1, 5, vec![-30.0, -1.0, 0.0, 1.0, 30.0]);
    let s = a.map(&sigmoid);
    for x in &s.data[0] {
        assert!(*x > 0.0 && *x < 1.0);
    }
}

#[test]
fn activation_derivative_is_literal() {
    let a = m(1, 3, vec![0.5, 2.0, -1.0]);
    let d = a.map(&sigmoid_derivative);
    assert_eq!(d.data, vec![vec![0.25, -2.0, -2.0]]);
}

#[test]
fn multiply_by_scalar_scales_each_cell() {
    let a = m(2, 1, vec![1.5, -2.0]);
    let s = a.multiply_by_scalar(4.0, &times);
    assert_eq!((s.rows, s.cols), (2, 1));
    assert_eq!(s.data, vec![vec![6.0], vec![-8.0]]);
}

#[test]
fn square_sum_of_cells() {
    let a = m(2, 2, vec![1.0, -2.0, 3.0, 0.5]);
    assert_eq!(a.square_sum(0.0, &mul_add), 14.25);
    assert_eq!(m(0, 0, vec![]).square_sum(0.0, &mul_add), 0.0);
}

#[test]
fn random_draws_every_cell() {
    let a = Matrix::random(3, 2, &|| 0.75);
    assert_eq!((a.rows, a.cols), (3, 2));
    assert_eq!(a.data, vec![vec![0.75; 2]; 3]);
}
