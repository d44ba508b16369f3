//! A layered feed-forward network trained one example at a time.
use vstd::prelude::*;
use crate::tensor::{copy_grid, copy_row, is_dot, same_grid, Tensor2D};

verus! {

/// Why a network operation refused its arguments.
#[derive(Debug, Clone, Copy, PartialEq, Eq, Structural)]
pub enum NetworkError {
    /// The topology has fewer than two layers or a layer of width zero.
    InvalidTopology,
    /// The input vector's length is not the width of the first layer.
    InvalidInputLength,
    /// The target vector's length is not the width of the last layer.
    InvalidTargetLength,
    /// The output vector's length is not the width of the last layer.
    InvalidOutputLength,
    /// A backward pass without a forward pass since the last one.
    UnpairedBackward,
    /// Weights or biases whose count or shapes do not fit the topology.
    ShapeMismatch,
    /// A training set with unequal numbers of inputs and targets.
    ExampleCountMismatch,
}

/// The scalar arithmetic that a network computes with.
pub struct Arithmetic<T, P, S, M> {
    pub zero: T,
    pub plus: P,
    pub minus: S,
    pub times: M,
}

/// An activation function and its derivative; the derivative is taken at the
/// activation's output, not at its input.
pub struct Activation<F, D> {
    pub function: F,
    pub derivative: D,
}

/// The weights and biases of a network as nested rows.
pub struct SaveData<T> {
    pub weights: Vec<Vec<Vec<T>>>,
    pub biases: Vec<Vec<Vec<T>>>,
}

/// A network of `layers.len()` layers, with one weight and one bias matrix per
/// transition between neighbouring layers.
pub struct Network<T, P, S, M, F, D> {
    layers: Vec<usize>,
    weights: Vec<Tensor2D<T>>,
    biases: Vec<Tensor2D<T>>,
    data: Vec<Tensor2D<T>>,
    primed: bool,
    learning_rate: T,
    arithmetic: Arithmetic<T, P, S, M>,
    activation: Activation<F, D>,
}

/// A topology has at least two layers, none of width zero.
pub open spec fn valid_topology(layers: Seq<usize>) -> bool {
    &&& layers.len() >= 2
    &&& forall|i: int| 0 <= i < layers.len() ==> #[trigger] layers[i] > 0
}

/// `weights` and `biases` fit the topology `layers`.
pub open spec fn fits_topology<T: Copy>(layers: Seq<usize>, weights: Seq<Tensor2D<T>>, biases: Seq<Tensor2D<T>>) -> bool {
    &&& weights.len() == layers.len() - 1
    &&& biases.len() == layers.len() - 1
    &&& forall|i: int| 0 <= i < weights.len() ==> {
        &&& (#[trigger] weights[i]).wf()
        &&& weights[i].rows == layers[i + 1]
        &&& weights[i].cols == layers[i]
    }
    &&& forall|i: int| 0 <= i < biases.len() ==> {
        &&& (#[trigger] biases[i]).wf()
        &&& biases[i].rows == layers[i + 1]
        &&& biases[i].cols == 1
    }
}

/// `t` is the column vector holding `v`.
pub open spec fn is_column<T: Copy>(t: Tensor2D<T>, v: Seq<T>) -> bool {
    &&& t.wf()
    &&& t.rows == v.len()
    &&& t.cols == 1
    &&& forall|k: int| 0 <= k < v.len() ==> #[trigger] t.at(k, 0) == v[k]
}

/// Every operation that a network calls accepts every argument.
pub open spec fn total_ops<T, P: Fn(T, T) -> T, S: Fn(T, T) -> T, M: Fn(T, T) -> T, F: Fn(T) -> T, D: Fn(T) -> T>(
    arithmetic: Arithmetic<T, P, S, M>,
    activation: Activation<F, D>,
) -> bool {
    &&& forall|x: T, y: T| arithmetic.plus.requires((x, y))
    &&& forall|x: T, y: T| arithmetic.minus.requires((x, y))
    &&& forall|x: T, y: T| arithmetic.times.requires((x, y))
    &&& forall|x: T| activation.function.requires((x,))
    &&& forall|x: T| activation.derivative.requires((x,))
}

/// `next` is a possible result of one forward step through weight matrix `w`
/// and bias `b` from the column `prev`: `function(w * prev + b)`.
pub open spec fn is_forward_step<T: Copy, P: Fn(T, T) -> T, S: Fn(T, T) -> T, M: Fn(T, T) -> T, F: Fn(T) -> T, D: Fn(T) -> T>(
    arithmetic: Arithmetic<T, P, S, M>,
    activation: Activation<F, D>,
    w: Tensor2D<T>,
    b: Tensor2D<T>,
    prev: Tensor2D<T>,
    next: Tensor2D<T>,
) -> bool {
    exists|prod: Tensor2D<T>, sum: Tensor2D<T>|
        #[trigger] prod.is_product_of(w, prev, arithmetic.zero, arithmetic.plus, arithmetic.times)
            && #[trigger] sum.is_zip_of(prod, b, arithmetic.plus)
            && next.is_map_of(sum, activation.function)
}

/// `grid` has `rows` rows of `cols` entries each.
pub open spec fn grid_fits<T>(grid: Seq<Vec<T>>, rows: int, cols: int) -> bool {
    grid.len() == rows && forall|i: int| 0 <= i < grid.len() ==> (#[trigger] grid[i])@.len() == cols
}

fn check_topology(layers: &Vec<usize>) -> (r: bool)
    ensures
        r == valid_topology(layers@),
{
    if layers.len() < 2 {
        return false;
    }
    let mut i: usize = 0;
    while i < layers.len()
        invariant
            i <= layers@.len(),
            forall|k: int| 0 <= k < i ==> #[trigger] layers@[k] > 0,
        decreases layers@.len() - i,
    {
        if layers[i] == 0 {
            return false;
        }
        i = i + 1;
    }
    true
}

fn check_fit<T: Copy>(layers: &Vec<usize>, weights: &Vec<Tensor2D<T>>, biases: &Vec<Tensor2D<T>>) -> (r: bool)
    requires
        layers@.len() >= 1,
    ensures
        r == fits_topology(layers@, weights@, biases@),
{
    let n = layers.len() - 1;
    if weights.len() != n || biases.len() != n {
        return false;
    }
    let mut i: usize = 0;
    while i < n
        invariant
            n + 1 == layers@.len(),
            weights@.len() == n,
            biases@.len() == n,
            i <= n,
            forall|k: int| 0 <= k < i ==> {
                &&& (#[trigger] weights@[k]).wf()
                &&& weights@[k].rows == layers@[k + 1]
                &&& weights@[k].cols == layers@[k]
            },
            forall|k: int| 0 <= k < i ==> {
                &&& (#[trigger] biases@[k]).wf()
                &&& biases@[k].rows == layers@[k + 1]
                &&& biases@[k].cols == 1
            },
        decreases n - i,
    {
        if !weights[i].is_well_formed() || weights[i].rows != layers[i + 1] || weights[i].cols != layers[i] {
            return false;
        }
        if !biases[i].is_well_formed() || biases[i].rows != layers[i + 1] || biases[i].cols != 1 {
            return false;
        }
        i = i + 1;
    }
    true
}

/// The matrix of the grid when it has the given shape.
fn tensor_fitting<T: Copy>(grid: &Vec<Vec<T>>, rows: usize, cols: usize) -> (r: Option<Tensor2D<T>>)
    requires
        rows > 0,
    ensures
        r.is_some() <==> grid_fits(grid@, rows as int, cols as int),
        r matches Some(t) ==> t.wf() && t.rows == rows && t.cols == cols && same_grid(t.data@, grid@),
{
    if grid.len() != rows {
        return None;
    }
    let mut i: usize = 0;
    while i < rows
        invariant
            grid@.len() == rows,
            i <= rows,
            forall|k: int| 0 <= k < i ==> (#[trigger] grid@[k])@.len() == cols,
        decreases rows - i,
    {
        if grid[i].len() != cols {
            return None;
        }
        i = i + 1;
    }
    Some(Tensor2D { rows, cols, data: copy_grid(grid) })
}

/// The stores of the matrices.
fn grids_of<T: Copy>(ts: &Vec<Tensor2D<T>>) -> (r: Vec<Vec<Vec<T>>>)
    requires
        forall|i: int| 0 <= i < ts@.len() ==> (#[trigger] ts@[i]).wf(),
    ensures
        r@.len() == ts@.len(),
        forall|i: int| 0 <= i < r@.len() ==> same_grid((#[trigger] r@[i])@, ts@[i].data@),
{
    let mut r: Vec<Vec<Vec<T>>> = Vec::new();
    let mut i: usize = 0;
    while i < ts.len()
        invariant
            forall|k: int| 0 <= k < ts@.len() ==> (#[trigger] ts@[k]).wf(),
            i <= ts@.len(),
            r@.len() == i,
            forall|k: int| 0 <= k < i ==> same_grid((#[trigger] r@[k])@, ts@[k].data@),
        decreases ts@.len() - i,
    {
        r.push(ts[i].duplicate().data);
        i = i + 1;
    }
    r
}

/// The column vector holding `v`.
fn column_of<T: Copy>(v: &Vec<T>) -> (r: Tensor2D<T>)
    ensures
        is_column(r, v@),
{
    let mut data: Vec<Vec<T>> = Vec::new();
    let mut k: usize = 0;
    while k < v.len()
        invariant
            k <= v@.len(),
            data@.len() == k,
            forall|a: int| 0 <= a < k ==> (#[trigger] data@[a])@ == seq![v@[a]],
        decreases v@.len() - k,
    {
        let mut row: Vec<T> = Vec::new();
        row.push(v[k]);
        data.push(row);
        k = k + 1;
    }
    Tensor2D { rows: v.len(), cols: 1, data }
}

/// The entries of a column vector, top to bottom.
fn column_values<T: Copy>(t: &Tensor2D<T>) -> (r: Vec<T>)
    requires
        t.wf(),
        t.cols == 1,
    ensures
        is_column(*t, r@),
{
    let mut r: Vec<T> = Vec::new();
    let mut k: usize = 0;
    while k < t.rows
        invariant
            t.wf(),
            t.cols == 1,
            k <= t.rows,
            r@.len() == k,
            forall|a: int| 0 <= a < k ==> #[trigger] r@[a] == t.at(a, 0),
        decreases t.rows - k,
    {
        r.push(t.data[k][0]);
        k = k + 1;
    }
    r
}

/// `(w2, b2, err2, grad2)` is a possible result of one backward step through
/// the layer with weights `w`, bias `b` and input activations `below`, given
/// the error `err` and gradient `grad` at its output:
/// `delta = (grad ⊙ err) * rate`, `w2 = w + delta * belowᵀ`, `b2 = b + delta`,
/// `err2 = wᵀ * err` with the weights before the update, and
/// `grad2 = derivative(below)`.
pub open spec fn is_backward_step<T: Copy, P: Fn(T, T) -> T, S: Fn(T, T) -> T, M: Fn(T, T) -> T, F: Fn(T) -> T, D: Fn(T) -> T>(
    arithmetic: Arithmetic<T, P, S, M>,
    activation: Activation<F, D>,
    rate: T,
    w: Tensor2D<T>,
    b: Tensor2D<T>,
    below: Tensor2D<T>,
    err: Tensor2D<T>,
    grad: Tensor2D<T>,
    w2: Tensor2D<T>,
    b2: Tensor2D<T>,
    err2: Tensor2D<T>,
    grad2: Tensor2D<T>,
) -> bool {
    exists|g: Tensor2D<T>, delta: Tensor2D<T>, below_t: Tensor2D<T>, dw: Tensor2D<T>, w_t: Tensor2D<T>|
        #[trigger] g.is_zip_of(grad, err, arithmetic.times)
            && #[trigger] delta.is_scaled_of(g, rate, arithmetic.times)
            && #[trigger] below_t.is_transpose_of(below)
            && #[trigger] dw.is_product_of(delta, below_t, arithmetic.zero, arithmetic.plus, arithmetic.times)
            && w2.is_zip_of(w, dw, arithmetic.plus)
            && b2.is_zip_of(b, delta, arithmetic.plus)
            && #[trigger] w_t.is_transpose_of(w)
            && err2.is_product_of(w_t, err, arithmetic.zero, arithmetic.plus, arithmetic.times)
            && grad2.is_map_of(below, activation.derivative)
}

/// Every row of `rows` has `width` entries.
pub open spec fn all_of_width<T>(rows: Seq<Vec<T>>, width: int) -> bool {
    forall|j: int| 0 <= j < rows.len() ==> (#[trigger] rows[j])@.len() == width
}

fn check_widths<T>(rows: &Vec<Vec<T>>, width: usize) -> (r: bool)
    ensures
        r == all_of_width(rows@, width as int),
{
    let mut j: usize = 0;
    while j < rows.len()
        invariant
            j <= rows@.len(),
            forall|k: int| 0 <= k < j ==> (#[trigger] rows@[k])@.len() == width,
        decreases rows@.len() - j,
    {
        if rows[j].len() != width {
            return false;
        }
        j = j + 1;
    }
    true
}

/// Whether training reports epoch `epoch` of `epochs`: every epoch when there
/// are fewer than 100, else every `epochs / 100`-th.
pub open spec fn reports_epoch_spec(epoch: u64, epochs: u64) -> bool {
    epochs < 100 || epoch % (epochs / 100) == 0
}

/// Whether training reports progress at epoch `epoch` of `epochs`.
pub fn reports_epoch(epoch: u64, epochs: u64) -> (r: bool)
    ensures
        r == reports_epoch_spec(epoch, epochs),
{
    epochs < 100 || epoch % (epochs / 100) == 0
}

proof fn lemma_step_follows_values<T: Copy, P: Fn(T, T) -> T, S: Fn(T, T) -> T, M: Fn(T, T) -> T, F: Fn(T) -> T, D: Fn(T) -> T>(
    arithmetic: Arithmetic<T, P, S, M>,
    activation: Activation<F, D>,
    w1: Tensor2D<T>,
    b1: Tensor2D<T>,
    w2: Tensor2D<T>,
    b2: Tensor2D<T>,
    prev: Tensor2D<T>,
    next: Tensor2D<T>,
)
    requires
        w1.wf(),
        b1.wf(),
        w1.same_shape(w2),
        b1.same_shape(b2),
        same_grid(w1.data@, w2.data@),
        same_grid(b1.data@, b2.data@),
        is_forward_step(arithmetic, activation, w1, b1, prev, next),
    ensures
        is_forward_step(arithmetic, activation, w2, b2, prev, next),
{
    let (prod, sum) = choose|prod: Tensor2D<T>, sum: Tensor2D<T>|
        #[trigger] prod.is_product_of(w1, prev, arithmetic.zero, arithmetic.plus, arithmetic.times)
            && #[trigger] sum.is_zip_of(prod, b1, arithmetic.plus)
            && next.is_map_of(sum, activation.function);
    assert forall|i: int, j: int| 0 <= i < prod.rows && 0 <= j < prod.cols implies is_dot(
        w2.row(i),
        prev.column(j),
        arithmetic.zero,
        arithmetic.plus,
        arithmetic.times,
        #[trigger] prod.at(i, j),
    ) by {
        assert(w2.row(i) == w1.row(i));
    }
    assert(prod.is_product_of(w2, prev, arithmetic.zero, arithmetic.plus, arithmetic.times));
    assert forall|i: int, j: int| 0 <= i < sum.rows && 0 <= j < sum.cols implies arithmetic.plus.ensures(
        (prod.at(i, j), b2.at(i, j)),
        #[trigger] sum.at(i, j),
    ) by {
        assert(b2.data@[i]@ == b1.data@[i]@);
        assert(arithmetic.plus.ensures((prod.at(i, j), b1.at(i, j)), sum.at(i, j)));
    }
    assert(sum.is_zip_of(prod, b2, arithmetic.plus));
}

impl<T: Copy, P: Fn(T, T) -> T, S: Fn(T, T) -> T, M: Fn(T, T) -> T, F: Fn(T) -> T, D: Fn(T) -> T> Network<T, P, S, M, F, D> {
    /// The widths of the layers, input first.
    pub closed spec fn layer_widths(self) -> Seq<usize> {
        self.layers@
    }

    /// The weight matrices, one per transition.
    pub closed spec fn weight_seq(self) -> Seq<Tensor2D<T>> {
        self.weights@
    }

    /// The bias columns, one per transition.
    pub closed spec fn bias_seq(self) -> Seq<Tensor2D<T>> {
        self.biases@
    }

    /// The activations of the last forward pass, input column first.
    pub closed spec fn cache(self) -> Seq<Tensor2D<T>> {
        self.data@
    }

    /// A forward pass has run since the last backward pass.
    pub closed spec fn is_primed(self) -> bool {
        self.primed
    }

    /// The step size of an update.
    pub closed spec fn rate(self) -> T {
        self.learning_rate
    }

    /// The scalar arithmetic.
    pub closed spec fn ops(self) -> Arithmetic<T, P, S, M> {
        self.arithmetic
    }

    /// The activation pair.
    pub closed spec fn act(self) -> Activation<F, D> {
        self.activation
    }

    /// A network with the given topology and initial parameters; the
    /// parameters must fit the topology.
    pub fn new(
        layers: Vec<usize>,
        learning_rate: T,
        arithmetic: Arithmetic<T, P, S, M>,
        activation: Activation<F, D>,
        weights: Vec<Tensor2D<T>>,
        biases: Vec<Tensor2D<T>>,
    ) -> (r: Result<Self, NetworkError>)
        requires
            total_ops(arithmetic, activation),
        ensures
            match r {
                Ok(net) => {
                    &&& net.wf()
                    &&& !net.is_primed()
                    &&& net.layer_widths() == layers@
                    &&& net.weight_seq() == weights@
                    &&& net.bias_seq() == biases@
                    &&& net.rate() == learning_rate
                    &&& net.ops() == arithmetic
                    &&& net.act() == activation
                },
                Err(e) => {
                    &&& !valid_topology(layers@) ==> e == NetworkError::InvalidTopology
                    &&& valid_topology(layers@) ==> e == NetworkError::ShapeMismatch
                },
            },
            r.is_ok() <==> valid_topology(layers@) && fits_topology(layers@, weights@, biases@),
    {
        if !check_topology(&layers) {
            return Err(NetworkError::InvalidTopology);
        }
        if !check_fit(&layers, &weights, &biases) {
            return Err(NetworkError::ShapeMismatch);
        }
        Ok(Network {
            layers,
            weights,
            biases,
            data: Vec::new(),
            primed: false,
            learning_rate,
            arithmetic,
            activation,
        })
    }

    /// The weights and biases as nested rows, in layer order.
    pub fn save(&self) -> (r: SaveData<T>)
        requires
            self.wf(),
        ensures
            self.saved_as(r),
    {
        SaveData { weights: grids_of(&self.weights), biases: grids_of(&self.biases) }
    }

    /// Replaces the weights and biases by those in `saved`, which must fit the
    /// network's topology; on an error the network is unchanged. The cache of
    /// the last forward pass is dropped.
    pub fn load(&mut self, saved: SaveData<T>) -> (r: Result<(), NetworkError>)
        requires
            old(self).wf(),
        ensures
            final(self).wf(),
            final(self).layer_widths() == old(self).layer_widths(),
            final(self).rate() == old(self).rate(),
            final(self).ops() == old(self).ops(),
            final(self).act() == old(self).act(),
            r.is_ok() <==> old(self).load_accepts(saved),
            r.is_err() ==> r == Err::<(), NetworkError>(NetworkError::ShapeMismatch) && *final(self) == *old(self),
            r.is_ok() ==> !final(self).is_primed() && final(self).restores(saved),
    {
        let n = self.weights.len();
        if saved.weights.len() != n || saved.biases.len() != n {
            return Err(NetworkError::ShapeMismatch);
        }
        let ghost sw = saved.weights@;
        let ghost sb = saved.biases@;

        let mut weights: Vec<Tensor2D<T>> = Vec::new();
        let mut biases: Vec<Tensor2D<T>> = Vec::new();
        let mut i: usize = 0;
        while i < n
            invariant
                *self == *old(self),
                self.wf(),
                n == self.weights@.len(),
                n + 1 == self.layers@.len(),
                sw.len() == n,
                sb.len() == n,
                saved.weights@ == sw,
                saved.biases@ == sb,
                i <= n,
                weights@.len() == i,
                biases@.len() == i,
                forall|k: int| 0 <= k < i ==> grid_fits(#[trigger] sw[k]@, self.layers@[k + 1] as int, self.layers@[k] as int),
                forall|k: int| 0 <= k < i ==> grid_fits(#[trigger] sb[k]@, self.layers@[k + 1] as int, 1),
                forall|k: int| 0 <= k < i ==> {
                    &&& (#[trigger] weights@[k]).wf()
                    &&& weights@[k].rows == self.layers@[k + 1]
                    &&& weights@[k].cols == self.layers@[k]
                    &&& same_grid(weights@[k].data@, sw[k]@)
                },
                forall|k: int| 0 <= k < i ==> {
                    &&& (#[trigger] biases@[k]).wf()
                    &&& biases@[k].rows == self.layers@[k + 1]
                    &&& biases@[k].cols == 1
                    &&& same_grid(biases@[k].data@, sb[k]@)
                },
            decreases n - i,
        {
            let w = match tensor_fitting(&saved.weights[i], self.layers[i + 1], self.layers[i]) {
                Some(t) => t,
                None => {
                    assert(!grid_fits(sw[i as int]@, self.layers@[i + 1] as int, self.layers@[i as int] as int));

                    return Err(NetworkError::ShapeMismatch);
                },
            };
            let b = match tensor_fitting(&saved.biases[i], self.layers[i + 1], 1) {
                Some(t) => t,
                None => {
                    assert(!grid_fits(sb[i as int]@, self.layers@[i + 1] as int, 1));
                    return Err(NetworkError::ShapeMismatch);
                },
            };
            weights.push(w);
            biases.push(b);
            i = i + 1;
        }
        self.weights = weights;
        self.biases = biases;
        self.data = Vec::new();
        self.primed = false;
        Ok(())
    }

    /// Runs `inputs` through every layer, caches each layer's activations
    /// for the next backward pass and returns the last layer's activations.
    pub fn feed_forward(&mut self, inputs: Vec<T>) -> (r: Result<Vec<T>, NetworkError>)
        requires
            old(self).wf(),
        ensures
            final(self).wf(),
            final(self).layer_widths() == old(self).layer_widths(),
            final(self).weight_seq() == old(self).weight_seq(),
            final(self).bias_seq() == old(self).bias_seq(),
            final(self).rate() == old(self).rate(),
            final(self).ops() == old(self).ops(),
            final(self).act() == old(self).act(),
            r.is_ok() <==> inputs@.len() == old(self).layer_widths()[0],
            r.is_err() ==> r == Err::<Vec<T>, NetworkError>(NetworkError::InvalidInputLength) && *final(self) == *old(self),
            r matches Ok(out) ==> {
                &&& final(self).is_primed()
                &&& final(self).cache_is_forward_pass()
                &&& is_column(final(self).cache()[0], inputs@)
                &&& is_column(final(self).cache()[final(self).depth()], out@)
            },
    {
        if inputs.len() != self.layers[0] {
            return Err(NetworkError::InvalidInputLength);
        }
        let n = self.weights.len();
        let mut data: Vec<Tensor2D<T>> = Vec::new();
        data.push(column_of(&inputs));
        let mut i: usize = 0;
        while i < n
            invariant
                *self == *old(self),
                self.wf(),
                n == self.weights@.len(),
                n + 1 == self.layers@.len(),
                i <= n,
                data@.len() == i + 1,
                is_column(data@[0], inputs@),
                data@[0].rows == self.layers@[0],
                forall|k: int| 0 <= k <= i ==> {
                    &&& (#[trigger] data@[k]).wf()
                    &&& data@[k].rows == self.layers@[k]
                    &&& data@[k].cols == 1
                },
                forall|k: int| 0 <= k < i ==> is_forward_step(
                    self.arithmetic,
                    self.activation,
                    self.weights@[k],
                    self.biases@[k],
                    data@[k],
                    #[trigger] data@[k + 1],
                ),
            decreases n - i,
        {
            let prod = self.weights[i].multiply(
                &data[i],
                self.arithmetic.zero,
                &self.arithmetic.plus,
                &self.arithmetic.times,
            ).unwrap();
            let sum = prod.add(&self.biases[i], &self.arithmetic.plus).unwrap();
            let next = sum.map(&self.activation.function);
            proof {
                assert(is_forward_step(self.arithmetic, self.activation, self.weights@[i as int], self.biases@[i as int], data@[i as int], next));
            }
            data.push(next);
            i = i + 1;
        }
        let out = column_values(&data[n]);
        self.data = data;
        self.primed = true;
        Ok(out)
    }

    /// The errors and gradients of a backward pass that took `old` to `new`
    /// from `outputs` and `targets`: index `depth` holds `targets - outputs`
    /// and `derivative(outputs)`, and each layer, from the last to the first,
    /// is one backward step from index `i + 1` to index `i`.
    pub open spec fn is_backward_pass(
        old: Self,
        new: Self,
        outputs: Seq<T>,
        targets: Seq<T>,
        errs: Seq<Tensor2D<T>>,
        grads: Seq<Tensor2D<T>>,
    ) -> bool {
        let n = old.depth();
        let last = old.layer_widths()[n] as int;
        &&& errs.len() == n + 1
        &&& grads.len() == n + 1
        &&& errs[n].wf() && errs[n].rows == last && errs[n].cols == 1
        &&& grads[n].wf() && grads[n].rows == last && grads[n].cols == 1
        &&& forall|k: int| 0 <= k < last ==> old.ops().minus.ensures((targets[k], outputs[k]), #[trigger] errs[n].at(k, 0))
        &&& forall|k: int| 0 <= k < last ==> old.act().derivative.ensures((outputs[k],), #[trigger] grads[n].at(k, 0))
        &&& forall|i: int| 0 <= i < n ==> is_backward_step(
            old.ops(),
            old.act(),
            old.rate(),
            old.weight_seq()[i],
            old.bias_seq()[i],
            old.cache()[i],
            errs[i + 1],
            grads[i + 1],
            new.weight_seq()[i],
            new.bias_seq()[i],
            #[trigger] errs[i],
            grads[i],
        )
    }

    /// One gradient step from the example of the last forward pass: checks the
    /// lengths of `targets` and `outputs` and that a forward pass came first,
    /// then updates every layer's weights and bias, from the last layer to the
    /// first, and consumes the cached forward pass.
    pub fn back_propogate(&mut self, outputs: Vec<T>, targets: Vec<T>) -> (r: Result<(), NetworkError>)
        requires
            old(self).wf(),
        ensures
            final(self).wf(),
            final(self).layer_widths() == old(self).layer_widths(),
            final(self).rate() == old(self).rate(),
            final(self).ops() == old(self).ops(),
            final(self).act() == old(self).act(),
            (r == Err::<(), NetworkError>(NetworkError::InvalidTargetLength)) <==> targets@.len() != old(self).layer_widths()[old(self).depth()],
            (r == Err::<(), NetworkError>(NetworkError::InvalidOutputLength)) <==> {
                &&& targets@.len() == old(self).layer_widths()[old(self).depth()]
                &&& outputs@.len() != old(self).layer_widths()[old(self).depth()]
            },
            (r == Err::<(), NetworkError>(NetworkError::UnpairedBackward)) <==> {
                &&& targets@.len() == old(self).layer_widths()[old(self).depth()]
                &&& outputs@.len() == old(self).layer_widths()[old(self).depth()]
                &&& !old(self).is_primed()
            },
            r.is_ok() <==> {
                &&& targets@.len() == old(self).layer_widths()[old(self).depth()]
                &&& outputs@.len() == old(self).layer_widths()[old(self).depth()]
                &&& old(self).is_primed()
            },
            r.is_err() ==> *final(self) == *old(self),
            r.is_ok() ==> {
                &&& !final(self).is_primed()
                &&& exists|errs: Seq<Tensor2D<T>>, grads: Seq<Tensor2D<T>>|
                    #[trigger] Self::is_backward_pass(*old(self), *final(self), outputs@, targets@, errs, grads)
            },
    {
        let n = self.weights.len();
        let last = self.layers[n];
        if targets.len() != last {
            return Err(NetworkError::InvalidTargetLength);
        }
        if outputs.len() != last {
            return Err(NetworkError::InvalidOutputLength);
        }
        if !self.primed {
            return Err(NetworkError::UnpairedBackward);
        }
        let ghost pre = *self;
        let out_col = column_of(&outputs);
        let target_col = column_of(&targets);
        let mut err = target_col.subtract(&out_col, &self.arithmetic.minus).unwrap();
        let mut grad = out_col.map(&self.activation.derivative);
        let ghost mut errs: Seq<Tensor2D<T>> = Seq::new((n + 1) as nat, |k: int| err);
        let ghost mut grads: Seq<Tensor2D<T>> = Seq::new((n + 1) as nat, |k: int| grad);
        let mut i: usize = n;
        while i > 0
            invariant
                pre.wf(),
                pre.primed,
                self.layers == pre.layers,
                self.data == pre.data,
                self.primed == pre.primed,
                self.learning_rate == pre.learning_rate,
                self.arithmetic == pre.arithmetic,
                self.activation == pre.activation,
                n == pre.weights@.len(),
                n + 1 == pre.layers@.len(),
                last == pre.layers@[n as int],
                outputs@.len() == last,
                targets@.len() == last,
                i <= n,
                fits_topology(self.layers@, self.weights@, self.biases@),
                forall|k: int| 0 <= k < i ==> #[trigger] self.weights@[k] == pre.weights@[k],
                forall|k: int| 0 <= k < i ==> #[trigger] self.biases@[k] == pre.biases@[k],
                err.wf(),
                err.rows == pre.layers@[i as int],
                err.cols == 1,
                grad.wf(),
                grad.rows == pre.layers@[i as int],
                grad.cols == 1,
                errs.len() == n + 1,
                grads.len() == n + 1,
                errs[i as int] == err,
                grads[i as int] == grad,
                errs[n as int].wf() && errs[n as int].rows == last && errs[n as int].cols == 1,
                grads[n as int].wf() && grads[n as int].rows == last && grads[n as int].cols == 1,
                forall|k: int| 0 <= k < last ==> pre.arithmetic.minus.ensures((targets@[k], outputs@[k]), #[trigger] errs[n as int].at(k, 0)),
                forall|k: int| 0 <= k < last ==> pre.activation.derivative.ensures((outputs@[k],), #[trigger] grads[n as int].at(k, 0)),
                forall|k: int| i <= k < n ==> is_backward_step(
                    pre.arithmetic,
                    pre.activation,
                    pre.learning_rate,
                    pre.weights@[k],
                    pre.biases@[k],
                    pre.data@[k],
                    errs[k + 1],
                    grads[k + 1],
                    self.weights@[k],
                    self.biases@[k],
                    #[trigger] errs[k],
                    grads[k],
                ),
            decreases i,
        {
            let l = i - 1;
            proof {
                assert(pre.cache_is_forward_pass());
                if l > 0 {
                    let m = l - 1;
                    assert(pre.cache()[m + 1].wf());
                }
            }
            let g = grad.dot_multiply(&err, &self.arithmetic.times).unwrap();
            let delta = g.scale(self.learning_rate, &self.arithmetic.times);
            let below_t = self.data[l].transpose();
            let dw = delta.multiply(&below_t, self.arithmetic.zero, &self.arithmetic.plus, &self.arithmetic.times).unwrap();
            let w2 = self.weights[l].add(&dw, &self.arithmetic.plus).unwrap();
            let b2 = self.biases[l].add(&delta, &self.arithmetic.plus).unwrap();
            let w_t = self.weights[l].transpose();
            let err2 = w_t.multiply(&err, self.arithmetic.zero, &self.arithmetic.plus, &self.arithmetic.times).unwrap();
            let grad2 = self.data[l].map(&self.activation.derivative);
            proof {
                assert(is_backward_step(
                    pre.arithmetic,
                    pre.activation,
                    pre.learning_rate,
                    pre.weights@[l as int],
                    pre.biases@[l as int],
                    pre.data@[l as int],
                    errs[i as int],
                    grads[i as int],
                    w2,
                    b2,
                    err2,
                    grad2,
                ));
                errs = errs.update(l as int, err2);
                grads = grads.update(l as int, grad2);
            }
            self.weights.set(l, w2);
            self.biases.set(l, b2);
            err = err2;
            grad = grad2;
            i = l;
        }
        self.primed = false;
        proof {
            assert(Self::is_backward_pass(pre, *self, outputs@, targets@, errs, grads));
        }
        Ok(())
    }

    /// `b` is a possible result of one training step on `a`: a forward pass of
    /// `input` followed by a backward pass towards `target` from its output.
    pub open spec fn is_training_step(a: Self, b: Self, input: Seq<T>, target: Seq<T>) -> bool {
        exists|mid: Self, errs: Seq<Tensor2D<T>>, grads: Seq<Tensor2D<T>>|
            #[trigger] Self::forward_result(a, mid, input)
                && #[trigger] Self::is_backward_pass(
                    mid,
                    b,
                    mid.cache()[mid.depth()].column(0),
                    target,
                    errs,
                    grads,
                )
                && !b.is_primed()
    }

    /// `mid` is `a` after a forward pass of `input`.
    pub open spec fn forward_result(a: Self, mid: Self, input: Seq<T>) -> bool {
        &&& mid.wf()
        &&& mid.layer_widths() == a.layer_widths()
        &&& mid.weight_seq() == a.weight_seq()
        &&& mid.bias_seq() == a.bias_seq()
        &&& mid.rate() == a.rate()
        &&& mid.ops() == a.ops()
        &&& mid.act() == a.act()
        &&& mid.is_primed()
        &&& mid.cache_is_forward_pass()
        &&& is_column(mid.cache()[0], input)
    }

    /// `b` is a possible result of training `a` once on every example, in order.
    pub open spec fn is_epoch(a: Self, b: Self, inputs: Seq<Vec<T>>, targets: Seq<Vec<T>>) -> bool {
        exists|nets: Seq<Self>|
            #[trigger] nets.len() == inputs.len() + 1
                && nets[0] == a
                && nets[inputs.len() as int] == b
                && forall|j: int| 0 <= j < inputs.len() ==> Self::is_training_step(
                    #[trigger] nets[j],
                    nets[j + 1],
                    inputs[j]@,
                    targets[j]@,
                )
    }

    /// Trains once on every example in order: a forward pass of `inputs[j]`
    /// and a backward pass towards `targets[j]`. The set is checked before
    /// any update; on an error the network is unchanged.
    pub fn train_epoch(&mut self, inputs: &Vec<Vec<T>>, targets: &Vec<Vec<T>>) -> (r: Result<(), NetworkError>)
        requires
            old(self).wf(),
        ensures
            final(self).wf(),
            final(self).layer_widths() == old(self).layer_widths(),
            final(self).rate() == old(self).rate(),
            final(self).ops() == old(self).ops(),
            final(self).act() == old(self).act(),
            (r == Err::<(), NetworkError>(NetworkError::ExampleCountMismatch)) <==> inputs@.len() != targets@.len(),
            (r == Err::<(), NetworkError>(NetworkError::InvalidInputLength)) <==> {
                &&& inputs@.len() == targets@.len()
                &&& !all_of_width(inputs@, old(self).layer_widths()[0] as int)
            },
            (r == Err::<(), NetworkError>(NetworkError::InvalidTargetLength)) <==> {
                &&& inputs@.len() == targets@.len()
                &&& all_of_width(inputs@, old(self).layer_widths()[0] as int)
                &&& !all_of_width(targets@, old(self).layer_widths()[old(self).depth()] as int)
            },
            r.is_ok() <==> {
                &&& inputs@.len() == targets@.len()
                &&& all_of_width(inputs@, old(self).layer_widths()[0] as int)
                &&& all_of_width(targets@, old(self).layer_widths()[old(self).depth()] as int)
            },
            r.is_err() ==> *final(self) == *old(self),
            r.is_ok() ==> Self::is_epoch(*old(self), *final(self), inputs@, targets@),
            r.is_ok() && inputs@.len() > 0 ==> !final(self).is_primed(),
    {
        if inputs.len() != targets.len() {
            return Err(NetworkError::ExampleCountMismatch);
        }
        let n = self.weights.len();
        if !check_widths(inputs, self.layers[0]) {
            return Err(NetworkError::InvalidInputLength);
        }
        if !check_widths(targets, self.layers[n]) {
            return Err(NetworkError::InvalidTargetLength);
        }
        let ghost start = *self;
        let ghost mut nets: Seq<Self> = seq![start];
        let mut j: usize = 0;
        while j < inputs.len()
            invariant
                self.wf(),
                self.layer_widths() == start.layer_widths(),
                self.rate() == start.rate(),
                self.ops() == start.ops(),
                self.act() == start.act(),
                n == start.weights@.len(),
                n + 1 == start.layers@.len(),
                inputs@.len() == targets@.len(),
                all_of_width(inputs@, start.layers@[0] as int),
                all_of_width(targets@, start.layers@[n as int] as int),
                j <= inputs@.len(),
                nets.len() == j + 1,
                nets[0] == start,
                nets[j as int] == *self,
                j > 0 ==> !self.is_primed(),
                forall|k: int| 0 <= k < j ==> Self::is_training_step(
                    #[trigger] nets[k],
                    nets[k + 1],
                    inputs@[k]@,
                    targets@[k]@,
                ),
            decreases inputs@.len() - j,
        {
            let ghost before = *self;
            let input = copy_row(&inputs[j]);
            let target = copy_row(&targets[j]);
            assert(inputs@[j as int]@.len() == start.layers@[0]);
            let out = self.feed_forward(input).unwrap();
            let ghost mid = *self;
            assert(Self::forward_result(before, mid, inputs@[j as int]@));
            assert(out@ =~= mid.cache()[mid.depth()].column(0));
            proof {
                let m = mid.depth() - 1;
                assert(mid.cache()[m + 1].rows == mid.layer_widths()[m + 1]);
            }
            assert(targets@[j as int]@.len() == start.layers@[n as int]);
            // The lengths were checked above and the forward pass just ran.
            let _ = self.back_propogate(out, target);
            proof {
                let (errs, grads) = choose|errs: Seq<Tensor2D<T>>, grads: Seq<Tensor2D<T>>|
                    #[trigger] Self::is_backward_pass(mid, *self, out@, targets@[j as int]@, errs, grads);
                assert(Self::is_backward_pass(mid, *self, mid.cache()[mid.depth()].column(0), targets@[j as int]@, errs, grads));
                assert(Self::is_training_step(before, *self, inputs@[j as int]@, targets@[j as int]@));
                nets = nets.push(*self);
            }
            j = j + 1;
        }
        proof {
            assert(nets.len() == inputs@.len() + 1);
        }
        Ok(())
    }

    /// Trains `epochs` times on the whole set, in order, with no shuffling.
    /// With no epochs nothing is checked and nothing changes.
    pub fn train(&mut self, inputs: &Vec<Vec<T>>, targets: &Vec<Vec<T>>, epochs: u64) -> (r: Result<(), NetworkError>)
        requires
            old(self).wf(),
        ensures
            final(self).wf(),
            final(self).layer_widths() == old(self).layer_widths(),
            final(self).rate() == old(self).rate(),
            final(self).ops() == old(self).ops(),
            final(self).act() == old(self).act(),
            r.is_ok() <==> epochs == 0 || {
                &&& inputs@.len() == targets@.len()
                &&& all_of_width(inputs@, old(self).layer_widths()[0] as int)
                &&& all_of_width(targets@, old(self).layer_widths()[old(self).depth()] as int)
            },
            r.is_err() ==> *final(self) == *old(self) && {
                ||| (r == Err::<(), NetworkError>(NetworkError::ExampleCountMismatch))
                ||| (r == Err::<(), NetworkError>(NetworkError::InvalidInputLength))
                ||| (r == Err::<(), NetworkError>(NetworkError::InvalidTargetLength))
            },
            (r == Err::<(), NetworkError>(NetworkError::ExampleCountMismatch)) <==> epochs > 0 && inputs@.len() != targets@.len(),
            (r == Err::<(), NetworkError>(NetworkError::InvalidInputLength)) <==> {
                &&& epochs > 0
                &&& inputs@.len() == targets@.len()
                &&& !all_of_width(inputs@, old(self).layer_widths()[0] as int)
            },
            r.is_ok() ==> exists|nets: Seq<Self>|
                #[trigger] nets.len() == epochs + 1
                    && nets[0] == *old(self)
                    && nets[epochs as int] == *final(self)
                    && forall|e: int| 0 <= e < epochs ==> Self::is_epoch(#[trigger] nets[e], nets[e + 1], inputs@, targets@),
    {
        let ghost start = *self;
        let ghost mut nets: Seq<Self> = seq![start];
        let mut e: u64 = 0;
        while e < epochs
            invariant
                self.wf(),
                self.layer_widths() == start.layer_widths(),
                self.rate() == start.rate(),
                self.ops() == start.ops(),
                self.act() == start.act(),
                start.wf(),
                start == *old(self),
                e <= epochs,
                e > 0 ==> {
                    &&& inputs@.len() == targets@.len()
                    &&& all_of_width(inputs@, start.layer_widths()[0] as int)
                    &&& all_of_width(targets@, start.layer_widths()[start.depth()] as int)
                },
                nets.len() == e + 1,
                nets[0] == start,
                nets[e as int] == *self,
                forall|k: int| 0 <= k < e ==> Self::is_epoch(#[trigger] nets[k], nets[k + 1], inputs@, targets@),
            decreases epochs - e,
        {
            let done = self.train_epoch(inputs, targets);
            if done.is_err() {
                return done;
            }
            proof {
                nets = nets.push(*self);
            }
            e = e + 1;
        }
        Ok(())
    }

    /// `saved` holds one weight grid and one bias grid per transition, each
    /// of the shape that the topology gives.
    pub open spec fn load_accepts(self, saved: SaveData<T>) -> bool {
        &&& saved.weights@.len() == self.weight_seq().len()
        &&& saved.biases@.len() == self.bias_seq().len()
        &&& forall|i: int| 0 <= i < saved.weights@.len() ==> grid_fits(
            (#[trigger] saved.weights@[i])@,
            self.layer_widths()[i + 1] as int,
            self.layer_widths()[i] as int,
        )
        &&& forall|i: int| 0 <= i < saved.biases@.len() ==> grid_fits(
            (#[trigger] saved.biases@[i])@,
            self.layer_widths()[i + 1] as int,
            1,
        )
    }

    /// The weights and biases hold the rows of `saved`.
    pub open spec fn restores(self, saved: SaveData<T>) -> bool {
        &&& self.weight_seq().len() == saved.weights@.len()
        &&& self.bias_seq().len() == saved.biases@.len()
        &&& forall|i: int| 0 <= i < self.weight_seq().len() ==> same_grid((#[trigger] self.weight_seq()[i]).data@, saved.weights@[i]@)
        &&& forall|i: int| 0 <= i < self.bias_seq().len() ==> same_grid((#[trigger] self.bias_seq()[i]).data@, saved.biases@[i]@)
    }

    /// `saved` holds the rows of the weights and biases, as `save` returns them.
    pub open spec fn saved_as(self, saved: SaveData<T>) -> bool {
        &&& saved.weights@.len() == self.weight_seq().len()
        &&& saved.biases@.len() == self.bias_seq().len()
        &&& forall|i: int| 0 <= i < saved.weights@.len() ==> same_grid((#[trigger] saved.weights@[i])@, self.weight_seq()[i].data@)
        &&& forall|i: int| 0 <= i < saved.biases@.len() ==> same_grid((#[trigger] saved.biases@[i])@, self.bias_seq()[i].data@)
    }

    /// What `save` returns from a network loads into any network of the same
    /// topology. A well-formed network of that topology that holds what was
    /// loaded has the same weights and biases, entry for entry, as the one
    /// that was saved, and with the same operations every forward step of one
    /// is a forward step of the other, so both compute the same outputs.
    pub proof fn law_save_load_round_trip(a: Self, b: Self, saved: SaveData<T>, loaded: Self)
        requires
            a.wf(),
            b.wf(),
            b.layer_widths() == a.layer_widths(),
            a.saved_as(saved),
        ensures
            b.load_accepts(saved),
            loaded.wf() && loaded.layer_widths() == a.layer_widths() && loaded.restores(saved) ==> {
                &&& forall|i: int| 0 <= i < a.depth() ==> same_grid(#[trigger] loaded.weight_seq()[i].data@, a.weight_seq()[i].data@)
                &&& forall|i: int| 0 <= i < a.depth() ==> same_grid(#[trigger] loaded.bias_seq()[i].data@, a.bias_seq()[i].data@)
                &&& forall|i: int, prev: Tensor2D<T>, next: Tensor2D<T>| 0 <= i < a.depth() ==> (is_forward_step(
                    a.ops(),
                    a.act(),
                    a.weight_seq()[i],
                    a.bias_seq()[i],
                    prev,
                    next,
                ) <==> #[trigger] is_forward_step(
                    a.ops(),
                    a.act(),
                    loaded.weight_seq()[i],
                    loaded.bias_seq()[i],
                    prev,
                    next,
                ))
            },
    {
        assert forall|i: int| 0 <= i < saved.weights@.len() implies grid_fits(
            (#[trigger] saved.weights@[i])@,
            b.layer_widths()[i + 1] as int,
            b.layer_widths()[i] as int,
        ) by {
            assert(a.weight_seq()[i].wf());
        }
        assert forall|i: int| 0 <= i < saved.biases@.len() implies grid_fits(
            (#[trigger] saved.biases@[i])@,
            b.layer_widths()[i + 1] as int,
            1,
        ) by {
            assert(a.bias_seq()[i].wf());
        }
        if loaded.restores(saved) {
            assert forall|i: int| 0 <= i < a.depth() implies same_grid(#[trigger] loaded.weight_seq()[i].data@, a.weight_seq()[i].data@) by {
                assert(same_grid(saved.weights@[i]@, a.weight_seq()[i].data@));
            }
            assert forall|i: int| 0 <= i < a.depth() implies same_grid(#[trigger] loaded.bias_seq()[i].data@, a.bias_seq()[i].data@) by {
                assert(same_grid(saved.biases@[i]@, a.bias_seq()[i].data@));
            }
        }
        if loaded.wf() && loaded.layer_widths() == a.layer_widths() && loaded.restores(saved) {
            assert forall|i: int, prev: Tensor2D<T>, next: Tensor2D<T>| 0 <= i < a.depth() implies (is_forward_step(
                a.ops(),
                a.act(),
                a.weight_seq()[i],
                a.bias_seq()[i],
                prev,
                next,
            ) <==> #[trigger] is_forward_step(
                a.ops(),
                a.act(),
                loaded.weight_seq()[i],
                loaded.bias_seq()[i],
                prev,
                next,
            )) by {
                let (wa, ba) = (a.weight_seq()[i], a.bias_seq()[i]);
                let (wl, bl) = (loaded.weight_seq()[i], loaded.bias_seq()[i]);
                assert(same_grid(saved.weights@[i]@, wa.data@));
                assert(same_grid(saved.biases@[i]@, ba.data@));
                assert(same_grid(wl.data@, wa.data@) && same_grid(wa.data@, wl.data@));
                assert(same_grid(bl.data@, ba.data@) && same_grid(ba.data@, bl.data@));
                if is_forward_step(a.ops(), a.act(), wa, ba, prev, next) {
                    lemma_step_follows_values(a.ops(), a.act(), wa, ba, wl, bl, prev, next);
                }
                if is_forward_step(a.ops(), a.act(), wl, bl, prev, next) {
                    lemma_step_follows_values(a.ops(), a.act(), wl, bl, wa, ba, prev, next);
                }
            }
        }
    }

    /// The number of layer transitions.
    pub open spec fn depth(self) -> int {
        self.layer_widths().len() - 1
    }

    /// The cache holds, for an input column, the result of each forward step.
    pub open spec fn cache_is_forward_pass(self) -> bool {
        &&& self.cache().len() == self.layer_widths().len()
        &&& self.cache()[0].wf()
        &&& self.cache()[0].rows == self.layer_widths()[0]
        &&& self.cache()[0].cols == 1
        &&& forall|i: int| 0 <= i < self.depth() ==> {
            &&& (#[trigger] self.cache()[i + 1]).wf()
            &&& self.cache()[i + 1].rows == self.layer_widths()[i + 1]
            &&& self.cache()[i + 1].cols == 1
            &&& is_forward_step(
                self.ops(),
                self.act(),
                self.weight_seq()[i],
                self.bias_seq()[i],
                self.cache()[i],
                self.cache()[i + 1],
            )
        }
    }

    /// The topology is valid, the parameters fit it, the operations are
    /// total, and a primed network holds a forward pass in its cache.
    pub closed spec fn wf(self) -> bool {
        &&& valid_topology(self.layers@)
        &&& fits_topology(self.layers@, self.weights@, self.biases@)
        &&& total_ops(self.arithmetic, self.activation)
        &&& self.primed ==> self.cache_is_forward_pass()
    }
}

} // verus!
