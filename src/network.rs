//! Layers of affine transforms with an activation, stacked into a network.
use vstd::prelude::*;
use crate::matrix::{
    dot_cells, map_cells, scale_cells, transpose_cells, zip_cells, Matrix, MatrixError, Shape,
};
use crate::scalar::Arith;

verus! {

/// One affine transform followed by the activation: `weights` is
/// output-size by input-size, `biases` output-size by one.
pub struct Layer<T> {
    pub weights: Matrix<T>,
    pub biases: Matrix<T>,
}

impl<T: Copy> Layer<T> {
    pub open spec fn wf(&self) -> bool {
        &&& self.weights.wf()
        &&& self.biases.wf()
        &&& self.biases.is_shape(self.weights.rows as int, 1)
    }

    /// The number of inputs the layer takes.
    pub open spec fn input_size(&self) -> nat {
        self.weights.cols as nat
    }

    /// The number of outputs the layer gives.
    pub open spec fn output_size(&self) -> nat {
        self.weights.rows as nat
    }

    /// `activate(weights · x + biases)` for an input column `x`.
    pub open spec fn forward_cells<A, S, M, MA, G>(&self, x: Seq<Seq<T>>, ops: Arith<T, A, S, M, MA, G>) -> Seq<Seq<T>> where
        A: Fn(T, T) -> T,
        S: Fn(T, T) -> T,
        M: Fn(T, T) -> T,
        MA: Fn(T, T, T) -> T,
        G: Fn(T) -> T,
    {
        map_cells(
            zip_cells(
                dot_cells(self.weights@, x, self.weights.cols as nat, 1, ops.zero, ops.mul_add),
                self.biases@,
                ops.add,
            ),
            ops.activate,
        )
    }

    /// The error with which the layer refuses an input of shape `s` that is
    /// not a column of `input_size` cells.
    pub open spec fn forward_error(&self, s: Shape) -> MatrixError {
        if s.rows != self.weights.cols {
            MatrixError::DimensionMismatch {
                expected: Shape { rows: self.weights.cols, cols: s.cols },
                actual: s,
            }
        } else {
            MatrixError::DimensionMismatch {
                expected: Shape { rows: self.weights.rows, cols: s.cols },
                actual: Shape { rows: self.weights.rows, cols: 1 },
            }
        }
    }

    /// Every weight and bias is a value that `draw` can give.
    pub open spec fn drawn_from<F: Fn() -> T>(&self, draw: F) -> bool {
        &&& forall|i: int, j: int|
            0 <= i < self.weights.rows && 0 <= j < self.weights.cols ==> draw.ensures(
                (),
                #[trigger] self.weights@[i][j],
            )
        &&& forall|i: int| 0 <= i < self.biases.rows ==> draw.ensures((), #[trigger] self.biases@[i][0])
    }

    /// A layer from `input_size` inputs to `output_size` outputs whose every
    /// weight and bias is drawn from `draw`.
    pub fn new<F: Fn() -> T>(input_size: usize, output_size: usize, draw: &F) -> (r: Self)
        requires
            forall|u: ()| #[trigger] draw.requires(u),
        ensures
            r.wf(),
            r.weights.is_shape(output_size as int, input_size as int),
            r.drawn_from(*draw),
    {
        let weights = Matrix::random(output_size, input_size, draw);
        let biases = Matrix::random(output_size, 1, draw);
        Layer { weights, biases }
    }

    /// `activate(weights · input + biases)`. Refused unless `input` is a
    /// column of `input_size` cells.
    pub fn forward<A, S, M, MA, G>(&self, input: &Matrix<T>, ops: &Arith<T, A, S, M, MA, G>) -> (r: Result<Matrix<T>, MatrixError>) where
        A: Fn(T, T) -> T,
        S: Fn(T, T) -> T,
        M: Fn(T, T) -> T,
        MA: Fn(T, T, T) -> T,
        G: Fn(T) -> T,
        requires
            self.wf(),
            input.wf(),
            ops.wf(),
        ensures
            input.is_shape(self.input_size() as int, 1) <==> r is Ok,
            r matches Err(e) ==> e == self.forward_error(input.shape()),
            r matches Ok(m) ==> m.wf() && m.is_shape(self.output_size() as int, 1)
                && m@ == self.forward_cells(input@, *ops),
    {
        let weighted = match self.weights.dot(input, ops.zero, &ops.mul_add) {
            Ok(m) => m,
            Err(e) => return Err(e),
        };
        let sum = match weighted.zip_with(&self.biases, &ops.add) {
            Ok(m) => m,
            Err(e) => return Err(e),
        };
        Ok(sum.map(&ops.activate))
    }
}

/// Layers applied one after another; each layer's output size is the next
/// layer's input size.
pub struct NeuralNetwork<T> {
    pub layers: Vec<Layer<T>>,
}

/// The output of the first `n` layers of `layers` on input `x`.
pub open spec fn run_cells<T: Copy, A, S, M, MA, G>(
    layers: Seq<Layer<T>>,
    x: Seq<Seq<T>>,
    n: nat,
    ops: Arith<T, A, S, M, MA, G>,
) -> Seq<Seq<T>> where
    A: Fn(T, T) -> T,
    S: Fn(T, T) -> T,
    M: Fn(T, T) -> T,
    MA: Fn(T, T, T) -> T,
    G: Fn(T) -> T,
    decreases n,
{
    if n == 0 {
        x
    } else {
        layers[n - 1].forward_cells(run_cells(layers, x, (n - 1) as nat, ops), ops)
    }
}

impl<T: Copy> NeuralNetwork<T> {
    /// At least one layer, every layer well formed, and consecutive layers fit.
    pub open spec fn wf(&self) -> bool {
        &&& self.layers.len() >= 1
        &&& forall|i: int| 0 <= i < self.layers.len() ==> (#[trigger] self.layers@[i]).wf()
        &&& forall|i: int|
            0 <= i < self.layers.len() - 1 ==> (#[trigger] self.layers@[i]).output_size()
                == self.layers@[i + 1].input_size()
    }

    /// The number of inputs of the first layer.
    pub open spec fn input_size(&self) -> nat {
        self.layers@[0].input_size()
    }

    /// The number of outputs of the last layer.
    pub open spec fn output_size(&self) -> nat {
        self.layers@[self.layers.len() - 1].output_size()
    }

    /// A network with one layer for each pair of consecutive sizes, every
    /// weight and bias drawn from `draw`; `None` for fewer than two sizes.
    pub fn new<F: Fn() -> T>(layer_sizes: &[usize], draw: &F) -> (r: Option<Self>)
        requires
            forall|u: ()| #[trigger] draw.requires(u),
        ensures
            layer_sizes@.len() < 2 <==> r is None,
            r matches Some(n) ==> {
                &&& n.wf()
                &&& n.layers.len() == layer_sizes@.len() - 1
                &&& forall|i: int|
                    0 <= i < n.layers.len() ==> {
                        &&& (#[trigger] n.layers@[i]).weights.is_shape(
                            layer_sizes@[i + 1] as int,
                            layer_sizes@[i] as int,
                        )
                        &&& n.layers@[i].biases.is_shape(layer_sizes@[i + 1] as int, 1)
                        &&& n.layers@[i].drawn_from(*draw)
                    }
            },
    {
        if layer_sizes.len() < 2 {
            return None;
        }
        let mut layers: Vec<Layer<T>> = Vec::new();
        let mut i: usize = 0;
        while i < layer_sizes.len() - 1
            invariant
                forall|u: ()| #[trigger] draw.requires(u),
                layer_sizes@.len() >= 2,
                i <= layer_sizes@.len() - 1,
                layers.len() == i,
                forall|p: int|
                    0 <= p < i ==> {
                        &&& (#[trigger] layers@[p]).wf()
                        &&& layers@[p].weights.is_shape(
                            layer_sizes@[p + 1] as int,
                            layer_sizes@[p] as int,
                        )
                        &&& layers@[p].drawn_from(*draw)
                    },
            decreases layer_sizes@.len() - 1 - i,
        {
            layers.push(Layer::new(layer_sizes[i], layer_sizes[i + 1], draw));
            i += 1;
        }
        Some(NeuralNetwork { layers })
    }

    /// The output of every layer on `input`, first layer first.
    fn forward_all<A, S, M, MA, G>(&self, input: &Matrix<T>, ops: &Arith<T, A, S, M, MA, G>) -> (r: Result<Vec<Matrix<T>>, MatrixError>) where
        A: Fn(T, T) -> T,
        S: Fn(T, T) -> T,
        M: Fn(T, T) -> T,
        MA: Fn(T, T, T) -> T,
        G: Fn(T) -> T,
        requires
            self.wf(),
            input.wf(),
            ops.wf(),
        ensures
            input.is_shape(self.input_size() as int, 1) <==> r is Ok,
            r matches Err(e) ==> e == self.layers@[0].forward_error(input.shape()),
            r matches Ok(outs) ==> {
                &&& outs.len() == self.layers.len()
                &&& forall|k: int|
                    0 <= k < outs.len() ==> {
                        &&& (#[trigger] outs@[k]).wf()
                        &&& outs@[k].is_shape(self.layers@[k].output_size() as int, 1)
                        &&& outs@[k]@ == run_cells(self.layers@, input@, (k + 1) as nat, *ops)
                    }
            },
    {
        let first = match self.layers[0].forward(input, ops) {
            Ok(m) => m,
            Err(e) => return Err(e),
        };
        assert(run_cells(self.layers@, input@, 0, *ops) == input@);
        assert(first@ == run_cells(self.layers@, input@, 1, *ops));
        let mut outs: Vec<Matrix<T>> = Vec::new();
        outs.push(first);
        let mut k: usize = 1;
        while k < self.layers.len()
            invariant
                self.wf(),
                input.wf(),
                ops.wf(),
                1 <= k <= self.layers.len(),
                outs.len() == k,
                forall|p: int|
                    0 <= p < k ==> {
                        &&& (#[trigger] outs@[p]).wf()
                        &&& outs@[p].is_shape(self.layers@[p].output_size() as int, 1)
                        &&& outs@[p]@ == run_cells(self.layers@, input@, (p + 1) as nat, *ops)
                    },
            decreases self.layers.len() - k,
        {
            assert(self.layers@[k - 1].output_size() == self.layers@[k as int].input_size());
            let next = self.layers[k].forward(&outs[k - 1], ops).unwrap();
            outs.push(next);
            k += 1;
        }
        Ok(outs)
    }

    /// Runs `input` through every layer in order. Refused unless `input` is a
    /// column of `input_size` cells.
    pub fn predict<A, S, M, MA, G>(&self, input: &Matrix<T>, ops: &Arith<T, A, S, M, MA, G>) -> (r: Result<Matrix<T>, MatrixError>) where
        A: Fn(T, T) -> T,
        S: Fn(T, T) -> T,
        M: Fn(T, T) -> T,
        MA: Fn(T, T, T) -> T,
        G: Fn(T) -> T,
        requires
            self.wf(),
            input.wf(),
            ops.wf(),
        ensures
            input.is_shape(self.input_size() as int, 1) <==> r is Ok,
            r matches Err(e) ==> e == self.layers@[0].forward_error(input.shape()),
            r matches Ok(m) ==> m.wf() && m.is_shape(self.output_size() as int, 1)
                && m@ == run_cells(self.layers@, input@, self.layers.len() as nat, *ops),
    {
        let mut outs = match self.forward_all(input, ops) {
            Ok(o) => o,
            Err(e) => return Err(e),
        };
        Ok(outs.pop().unwrap())
    }
}

/// The gradient of one update step: the error scaled twice by the learning rate.
pub open spec fn gradient_cells<T, A, S, M, MA, G>(
    err: Seq<Seq<T>>,
    learning_rate: T,
    ops: Arith<T, A, S, M, MA, G>,
) -> Seq<Seq<T>> where
    A: Fn(T, T) -> T,
    S: Fn(T, T) -> T,
    M: Fn(T, T) -> T,
    MA: Fn(T, T, T) -> T,
    G: Fn(T) -> T,
{
    scale_cells(scale_cells(err, learning_rate, ops.mul), learning_rate, ops.mul)
}

/// A layer's weights after one step: `weights + gradient · inputᵀ`, where
/// `input` is the column the layer was fed.
pub open spec fn stepped_weights<T: Copy, A, S, M, MA, G>(
    layer: Layer<T>,
    input: Seq<Seq<T>>,
    grad: Seq<Seq<T>>,
    ops: Arith<T, A, S, M, MA, G>,
) -> Seq<Seq<T>> where
    A: Fn(T, T) -> T,
    S: Fn(T, T) -> T,
    M: Fn(T, T) -> T,
    MA: Fn(T, T, T) -> T,
    G: Fn(T) -> T,
{
    let n_in = layer.weights.cols as nat;
    zip_cells(
        layer.weights@,
        dot_cells(grad, transpose_cells(input, n_in, 1), 1, n_in, ops.zero, ops.mul_add),
        ops.add,
    )
}

/// The error handed to layer `i - 1` by a training step (for `i` equal to
/// the number of layers: `target - output`). Each layer passes on
/// `new_weightsᵀ · error`, with its weights already updated.
pub open spec fn back_error<T: Copy, A, S, M, MA, G>(
    layers: Seq<Layer<T>>,
    input: Seq<Seq<T>>,
    target: Seq<Seq<T>>,
    learning_rate: T,
    ops: Arith<T, A, S, M, MA, G>,
    i: nat,
) -> Seq<Seq<T>> where
    A: Fn(T, T) -> T,
    S: Fn(T, T) -> T,
    M: Fn(T, T) -> T,
    MA: Fn(T, T, T) -> T,
    G: Fn(T) -> T,
    decreases layers.len() - i,
{
    if i >= layers.len() {
        zip_cells(target, run_cells(layers, input, layers.len(), ops), ops.sub)
    } else {
        let later = back_error(layers, input, target, learning_rate, ops, i + 1);
        let w = stepped_weights(
            layers[i as int],
            run_cells(layers, input, i, ops),
            gradient_cells(later, learning_rate, ops),
            ops,
        );
        let layer = layers[i as int];
        dot_cells(
            transpose_cells(w, layer.weights.rows as nat, layer.weights.cols as nat),
            later,
            layer.weights.rows as nat,
            1,
            ops.zero,
            ops.mul_add,
        )
    }
}

/// Whether `m` is what a training step makes of layer `i` of `layers`:
/// its shapes kept, the weights `weights + gradient · layer_inputᵀ` and the
/// biases `biases + gradient`, where the gradient is the error that reaches
/// layer `i`, scaled twice by the learning rate.
#[verifier::opaque]
pub open spec fn trained_layer<T: Copy, A, S, M, MA, G>(
    m: Layer<T>,
    layers: Seq<Layer<T>>,
    input: Seq<Seq<T>>,
    target: Seq<Seq<T>>,
    learning_rate: T,
    ops: Arith<T, A, S, M, MA, G>,
    i: int,
) -> bool where
    A: Fn(T, T) -> T,
    S: Fn(T, T) -> T,
    M: Fn(T, T) -> T,
    MA: Fn(T, T, T) -> T,
    G: Fn(T) -> T,
{
    let l = layers[i];
    let grad = gradient_cells(
        back_error(layers, input, target, learning_rate, ops, (i + 1) as nat),
        learning_rate,
        ops,
    );
    &&& m.weights.shape() == l.weights.shape()
    &&& m.biases.shape() == l.biases.shape()
    &&& m.weights@ == stepped_weights(l, run_cells(layers, input, i as nat, ops), grad, ops)
    &&& m.biases@ == zip_cells(l.biases@, grad, ops.add)
}

impl<T: Copy> Layer<T> {
    /// One update step of this layer, fed `layer_input` and handed `error`:
    /// the updated layer, and the error it passes on.
    fn stepped<A, S, M, MA, G>(
        &self,
        layer_input: &Matrix<T>,
        error: &Matrix<T>,
        learning_rate: T,
        ops: &Arith<T, A, S, M, MA, G>,
    ) -> (r: (Layer<T>, Matrix<T>)) where
        A: Fn(T, T) -> T,
        S: Fn(T, T) -> T,
        M: Fn(T, T) -> T,
        MA: Fn(T, T, T) -> T,
        G: Fn(T) -> T,
        requires
            self.wf(),
            layer_input.wf(),
            layer_input.is_shape(self.input_size() as int, 1),
            error.wf(),
            error.is_shape(self.output_size() as int, 1),
            ops.wf(),
        ensures
            r.0.wf(),
            r.0.weights.shape() == self.weights.shape(),
            r.0.biases.shape() == self.biases.shape(),
            r.0.weights@ == stepped_weights(
                *self,
                layer_input@,
                gradient_cells(error@, learning_rate, *ops),
                *ops,
            ),
            r.0.biases@ == zip_cells(self.biases@, gradient_cells(error@, learning_rate, *ops), ops.add),
            r.1.wf(),
            r.1.is_shape(self.input_size() as int, 1),
            r.1@ == dot_cells(
                transpose_cells(r.0.weights@, self.weights.rows as nat, self.weights.cols as nat),
                error@,
                self.weights.rows as nat,
                1,
                ops.zero,
                ops.mul_add,
            ),
    {
        let gradient = error.multiply_by_scalar(learning_rate, &ops.mul).multiply_by_scalar(
            learning_rate,
            &ops.mul,
        );
        let delta = gradient.dot(&layer_input.transpose(), ops.zero, &ops.mul_add).unwrap();
        let weights = self.weights.zip_with(&delta, &ops.add).unwrap();
        let biases = self.biases.zip_with(&gradient, &ops.add).unwrap();
        let next_error = weights.transpose().dot(error, ops.zero, &ops.mul_add).unwrap();
        (Layer { weights, biases }, next_error)
    }
}

impl<T: Copy> NeuralNetwork<T> {
    /// One training step on `input` and `target`, exactly as follows. The
    /// outputs of all layers are computed; the error starts as
    /// `target - output`; then for each layer, last first, the gradient is the
    /// error scaled twice by `learning_rate`, the weights become
    /// `weights + gradient · layer_inputᵀ`, the biases `biases + gradient`,
    /// and the error passed on is `new_weightsᵀ · error`. Refused, with the
    /// network unchanged, unless `input` is a column of `input_size` cells
    /// and `target` one of `output_size` cells.
    #[verifier::rlimit(40)]
    pub fn train<A, S, M, MA, G>(
        &mut self,
        input: &Matrix<T>,
        target: &Matrix<T>,
        learning_rate: T,
        ops: &Arith<T, A, S, M, MA, G>,
    ) -> (r: Result<(), MatrixError>) where
        A: Fn(T, T) -> T,
        S: Fn(T, T) -> T,
        M: Fn(T, T) -> T,
        MA: Fn(T, T, T) -> T,
        G: Fn(T) -> T,
        requires
            old(self).wf(),
            input.wf(),
            target.wf(),
            ops.wf(),
        ensures
            r is Ok <==> input.is_shape(old(self).input_size() as int, 1) && target.is_shape(
                old(self).output_size() as int,
                1,
            ),
            !input.is_shape(old(self).input_size() as int, 1) ==> r == Err::<(), MatrixError>(
                old(self).layers@[0].forward_error(input.shape()),
            ),
            input.is_shape(old(self).input_size() as int, 1) && !target.is_shape(
                old(self).output_size() as int,
                1,
            ) ==> r == Err::<(), MatrixError>(
                (MatrixError::DimensionMismatch {
                    expected: target.shape(),
                    actual: Shape { rows: old(self).output_size() as usize, cols: 1 },
                }),
            ),
            r is Err ==> *final(self) == *old(self),
            r is Ok ==> {
                &&& final(self).wf()
                &&& final(self).layers.len() == old(self).layers.len()
                &&& forall|i: int|
                    0 <= i < old(self).layers.len() ==> trained_layer(
                        #[trigger] final(self).layers@[i],
                        old(self).layers@,
                        input@,
                        target@,
                        learning_rate,
                        *ops,
                        i,
                    )
            },
    {
        let outs = match self.forward_all(input, ops) {
            Ok(o) => o,
            Err(e) => return Err(e),
        };
        let n = self.layers.len();
        let mut error = match target.zip_with(&outs[n - 1], &ops.sub) {
            Ok(m) => m,
            Err(e) => return Err(e),
        };
        let ghost layers0 = self.layers@;
        let mut i: usize = n;
        while i > 0
            invariant
                layers0 == old(self).layers@,
                old(self).wf(),
                input.wf(),
                ops.wf(),
                n == layers0.len(),
                input.is_shape(old(self).input_size() as int, 1),
                outs.len() == n,
                forall|k: int|
                    0 <= k < n ==> {
                        &&& (#[trigger] outs@[k]).wf()
                        &&& outs@[k].is_shape(layers0[k].output_size() as int, 1)
                        &&& outs@[k]@ == run_cells(layers0, input@, (k + 1) as nat, *ops)
                    },
                i <= n,
                self.layers.len() == n,
                error.wf(),
                error.is_shape(layers0[i - 1].output_size() as int, 1) || i == 0,
                i == 0 ==> error.is_shape(layers0[0].input_size() as int, 1),
                error@ == back_error(layers0, input@, target@, learning_rate, *ops, i as nat),
                forall|p: int| 0 <= p < i ==> self.layers@[p] == #[trigger] layers0[p],
                forall|p: int|
                    0 <= p < n ==> (#[trigger] self.layers@[p]).wf()
                        && self.layers@[p].weights.shape() == layers0[p].weights.shape(),
                forall|p: int|
                    i <= p < n ==> trained_layer(
                        #[trigger] self.layers@[p],
                        layers0,
                        input@,
                        target@,
                        learning_rate,
                        *ops,
                        p,
                    ),
            decreases i,
        {
            i -= 1;
            let layer_input: &Matrix<T> = if i == 0 {
                input
            } else {
                assert(layers0[i - 1].output_size() == layers0[i as int].input_size());
                &outs[i - 1]
            };
            assert(layer_input@ == run_cells(layers0, input@, i as nat, *ops));
            let (layer, next_error) = self.layers[i].stepped(layer_input, &error, learning_rate, ops);
            proof {
                reveal(trained_layer);
                assert(trained_layer(layer, layers0, input@, target@, learning_rate, *ops, i as int));
            }
            self.layers.set(i, layer);
            error = next_error;
            if i > 0 {
                assert(layers0[i - 1].output_size() == layers0[i as int].input_size());
            }
        }
        Ok(())
    }
}

/// Training is reproducible: what a training step makes of a layer depends
/// only on the network, the example, the learning rate and the arithmetic,
/// so two steps from the same network on the same example give layers with
/// the same shapes, weights and biases.
pub proof fn lemma_train_deterministic<T: Copy, A, S, M, MA, G>(
    m1: Layer<T>,
    m2: Layer<T>,
    layers: Seq<Layer<T>>,
    input: Seq<Seq<T>>,
    target: Seq<Seq<T>>,
    learning_rate: T,
    ops: Arith<T, A, S, M, MA, G>,
    i: int,
) where
    A: Fn(T, T) -> T,
    S: Fn(T, T) -> T,
    M: Fn(T, T) -> T,
    MA: Fn(T, T, T) -> T,
    G: Fn(T) -> T,

    requires
        trained_layer(m1, layers, input, target, learning_rate, ops, i),
        trained_layer(m2, layers, input, target, learning_rate, ops, i),
    ensures
        m1.weights.shape() == m2.weights.shape(),
        m1.biases.shape() == m2.biases.shape(),
        m1.weights@ == m2.weights@,
        m1.biases@ == m2.biases@,
{
    reveal(trained_layer);
}

} // verus!
