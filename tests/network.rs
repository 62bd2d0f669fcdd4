use std::cell::Cell;

use nn::{Arith, Layer, Matrix, MatrixError, NeuralNetwork, Shape};

type Ops = Arith<
    f64,
    fn(f64, f64) -> f64,
    fn(f64, f64) -> f64,
    fn(f64, f64) -> f64,
    fn(f64, f64, f64) -> f64,
    fn(f64) -> f64,
>;

fn plus(a: f64, b: f64) -> f64 {
    a + b
}

fn minus(a: f64, b: f64) -> f64 {
    a - b
}

fn times(a: f64, b: f64) -> f64 {
    a * b
}

fn mul_add(acc: f64, a: f64, b: f64) -> f64 {
    acc + a * b
}

fn sigmoid(x: f64) -> f64 {
    1.0 / (1.0 + (-x).exp())
}

fn ops() -> Ops {
    Arith { zero: 0.0, add: plus, sub: minus, mul: times, mul_add, activate: sigmoid }
}

fn m(rows: usize, cols: usize, values: Vec<f64>) -> Matrix<f64> {
    Matrix::new(rows, cols, values).unwrap()
}

fn seeded_network(sizes: &[usize]) -> NeuralNetwork<f64> {
    let counter = Cell::new(0u32);
    let draw = || {
        let k = counter.get();
        counter.set(k + 1);
        ((k * 37 + 11) % 200) as f64 / 100.0 - 1.0
    };
    NeuralNetwork::new(sizes, &draw).unwrap()
}

fn xor_data() -> Vec<(Matrix<f64>, Matrix<f64>)> {
    vec![
        (m(2, 1, vec![0.0, 0.0]), m(1, 1, vec![0.0])),
        (m(2, 1, vec![0.0, 1.0]), m(1, 1, vec![1.0])),
        (m(2, 1, vec![1.0, 0.0]), m(1, 1, vec![1.0])),
        (m(2, 1, vec![1.0, 1.0]), m(1, 1, vec![0.0])),
    ]
}

#[test]
fn network_shapes_for_two_two_one() {
    let n = NeuralNetwork::new(&[2, 2, 1], &|| 0.1).unwrap();
    assert_eq!(n.layers.len(), 2);
    assert_eq!((n.layers[0].weights.rows, n.layers[0].weights.cols), (2, 2));
    assert_eq!((n.layers[1].weights.rows, n.layers[1].weights.cols), (1, 2));
    assert_eq!((n.layers[0].biases.rows, n.layers[0].biases.cols), (2, 1));
    assert_eq!((n.layers[1].biases.rows, n.layers[1].biases.cols), (1, 1));
}

#[test]
fn network_needs_two_sizes() {
    assert!(NeuralNetwork::new(&[3], &|| 0.1).is_none());
    assert!(NeuralNetwork::<f64>::new(&[], &|| 0.1).is_none());
}

#[test]
fn layer_forward_values() {
    let n = NeuralNetwork::new(&[2, 1], &|| 0.5).unwrap();
    let out = n.layers[0].forward(&m(2, 1, vec![1.0, -3.0]), &ops()).unwrap();
    // 0.5 * 1 + 0.5 * (-3) + 0.5 == -0.5
    assert_eq!(out.data, vec![vec![sigmoid(-0.5)]]);
}

#[test]
fn forward_refuses_wrong_input() {
    let n = NeuralNetwork::new(&[2, 3], &|| 0.5).unwrap();
    let l = &n.layers[0];
    assert_eq!(
        l.forward(&m(3, 1, vec![0.0; 3]), &ops()).unwrap_err(),
        MatrixError::DimensionMismatch {
            expected: Shape { rows: 2, cols: 1 },
            actual: Shape { rows: 3, cols: 1 },
        }
    );
    assert_eq!(
        l.forward(&m(2, 2, vec![0.0; 4]), &ops()).unwrap_err(),
        MatrixError::DimensionMismatch {
            expected: Shape { rows: 3, cols: 2 },
            actual: Shape { rows: 3, cols: 1 },
        }
    );
}

#[test]
fn predict_runs_every_layer() {
    let n = NeuralNetwork::new(&[1, 1, 1], &|| 1.0).unwrap();
    let out = n.predict(&m(1, 1, vec![0.0]), &ops()).unwrap();
    let hidden = sigmoid(0.0 + 1.0 * 0.0 + 1.0);
    assert_eq!(out.data, vec![vec![sigmoid(0.0 + 1.0 * hidden + 1.0)]]);
}

#[test]
fn predict_refuses_wrong_input() {
    let n = seeded_network(&[2, 2, 1]);
    assert!(n.predict(&m(3, 1, vec![0.0; 3]), &ops()).is_err());
    let out = n.predict(&m(2, 1, vec![0.0, 1.0]), &ops()).unwrap();
    assert_eq!((out.rows, out.cols), (1, 1));
}

#[test]
fn train_single_layer_step() {
    let mut n = NeuralNetwork::new(&[1, 1], &|| 0.5).unwrap();
    n.train(&m(1, 1, vec![2.0]), &m(1, 1, vec![1.0]), 0.5, &ops()).unwrap();
    let y = sigmoid(0.0 + 0.5 * 2.0 + 0.5);
    let grad = (1.0 - y) * 0.5 * 0.5;
    assert_eq!(n.layers[0].weights.data, vec![vec![0.5 + (0.0 + grad * 2.0)]]);
    assert_eq!(n.layers[0].biases.data, vec![vec![0.5 + grad]]);
}

#[test]
fn train_refuses_wrong_shapes_and_keeps_network() {
    let mut n = seeded_network(&[2, 2, 1]);
    let before: Vec<Vec<Vec<f64>>> = n.layers.iter().map(|l| l.weights.data.clone()).collect();
    let bad_input = n.train(&m(1, 1, vec![0.0]), &m(1, 1, vec![0.0]), 0.1, &ops());
    assert_eq!(
        bad_input.unwrap_err(),
        MatrixError::DimensionMismatch {
            expected: Shape { rows: 2, cols: 1 },
            actual: Shape { rows: 1, cols: 1 },
        }
    );
    let bad_target = n.train(&m(2, 1, vec![0.0, 1.0]), &m(2, 1, vec![0.0, 0.0]), 0.1, &ops());
    assert_eq!(
        bad_target.unwrap_err(),
        MatrixError::DimensionMismatch {
            expected: Shape { rows: 2, cols: 1 },
            actual: Shape { rows: 1, cols: 1 },
        }
    );
    let after: Vec<Vec<Vec<f64>>> = n.layers.iter().map(|l| l.weights.data.clone()).collect();
    assert_eq!(before, after);
}

#[test]
fn training_is_reproducible() {
    let data = xor_data();
    let mut a = seeded_network(&[2, 2, 1]);
    let mut b = seeded_network(&[2, 2, 1]);
    for _ in 0..200 {
        for (x, t) in &data {
            a.train(x, t, 0.1, &ops()).unwrap();
            b.train(x, t, 0.1, &ops()).unwrap();
        }
    }
    for (la, lb) in a.layers.iter().zip(b.layers.iter()) {
        assert_eq!(la.weights.data, lb.weights.data);
        assert_eq!(la.biases.data, lb.biases.data);
    }
    assert_eq!((a.layers[0].weights.rows, a.layers[0].weights.cols), (2, 2));
    assert_eq!((a.layers[1].weights.rows, a.layers[1].weights.cols), (1, 2));
    let mut total = 0.0;
    for (x, t) in &data {
        let p = a.predict(x, &ops()).unwrap();
        total += t.zip_with(&p, &minus).unwrap().square_sum(0.0, &mul_add);
    }
    assert!(total.is_finite());
}

#[test]
fn layer_new_shapes_and_draws() {
    let l = Layer::new(3, 2, &|| 0.25);
    assert_eq!((l.weights.rows, l.weights.cols), (2, 3));
    assert_eq!((l.biases.rows, l.biases.cols), (2, 1));
    assert_eq!(l.weights.data, vec![vec![0.25; 3]; 2]);
    assert_eq!(l.biases.data, vec![vec![0.25]; 2]);
}
