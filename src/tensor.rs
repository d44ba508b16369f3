//! Dense row-major matrices with value semantics.
use vstd::prelude::*;

verus! {

/// Why a matrix operation refused its operands.
#[derive(Debug, Clone, Copy, PartialEq, Eq, Structural)]
pub enum TensorError {
    /// The operands' shapes do not fit the operation.
    DimensionMismatch,
    /// A grid handed to `from` has rows of unequal length.
    RaggedRows,
}

/// A `rows` x `cols` matrix stored as `data[row][col]`.
#[derive(Clone, Debug)]
pub struct Tensor2D<T> {
    pub rows: usize,
    pub cols: usize,
    pub data: Vec<Vec<T>>,
}

/// Every row of `grid` has `cols` entries.
pub open spec fn rectangular<T>(grid: Seq<Vec<T>>, cols: int) -> bool {
    forall|i: int| 0 <= i < grid.len() ==> (#[trigger] grid[i])@.len() == cols
}

/// `sums` and `prods` record the first `n` steps of a dot product of `row` and
/// `col` that starts at `zero`: `prods[k]` is a result of `times(row[k], col[k])`
/// and `sums[k + 1]` a result of `plus(sums[k], prods[k])`.
pub open spec fn dot_steps<T, P: Fn(T, T) -> T, M: Fn(T, T) -> T>(
    row: Seq<T>,
    col: Seq<T>,
    n: int,
    zero: T,
    plus: P,
    times: M,
    sums: Seq<T>,
    prods: Seq<T>,
) -> bool {
    &&& sums.len() == n + 1
    &&& prods.len() == n
    &&& sums[0] == zero
    &&& forall|k: int| 0 <= k < n ==> times.ensures((row[k], col[k]), #[trigger] prods[k])
    &&& forall|k: int| 0 <= k < n ==> plus.ensures((#[trigger] sums[k], prods[k]), sums[k + 1])
}

/// `r` is a possible result of summing, from `zero` and in order of `k`, the
/// products `row[k] * col[k]` for `k < row.len()`.
pub open spec fn is_dot<T, P: Fn(T, T) -> T, M: Fn(T, T) -> T>(
    row: Seq<T>,
    col: Seq<T>,
    zero: T,
    plus: P,
    times: M,
    r: T,
) -> bool {
    exists|sums: Seq<T>, prods: Seq<T>|
        #[trigger] dot_steps(row, col, row.len() as int, zero, plus, times, sums, prods)
            && r == sums[row.len() as int]
}

/// Two grids hold the same rows.
pub open spec fn same_grid<T>(a: Seq<Vec<T>>, b: Seq<Vec<T>>) -> bool {
    a.len() == b.len() && forall|i: int| 0 <= i < a.len() ==> (#[trigger] a[i])@ == b[i]@
}

/// An independent copy of the row.
pub fn copy_row<T: Copy>(row: &Vec<T>) -> (r: Vec<T>)
    ensures
        r@ == row@,
{
    let mut r: Vec<T> = Vec::new();
    let mut j: usize = 0;
    while j < row.len()
        invariant
            j <= row@.len(),
            r@ == row@.take(j as int),
        decreases row@.len() - j,
    {
        r.push(row[j]);
        proof {
            assert(row@.take(j + 1) =~= row@.take(j as int).push(row@[j as int]));
        }
        j = j + 1;
    }
    proof {
        assert(row@.take(row@.len() as int) =~= row@);
    }
    r
}

/// An independent copy of the grid.
pub fn copy_grid<T: Copy>(grid: &Vec<Vec<T>>) -> (r: Vec<Vec<T>>)
    ensures
        same_grid(r@, grid@),
{
    let mut data: Vec<Vec<T>> = Vec::new();
    let mut i: usize = 0;
    while i < grid.len()
        invariant
            i <= grid@.len(),
            data@.len() == i,
            forall|a: int| 0 <= a < i ==> (#[trigger] data@[a])@ == grid@[a]@,
        decreases grid@.len() - i,
    {
        let row = copy_row(&grid[i]);
        data.push(row);
        i = i + 1;
    }
    data
}

impl<T: Copy> Tensor2D<T> {
    /// The store holds `rows` rows of `cols` entries each.
    pub open spec fn wf(self) -> bool {
        &&& self.data@.len() == self.rows
        &&& rectangular(self.data@, self.cols as int)
    }

    /// The entry in row `i`, column `j`.
    pub open spec fn at(self, i: int, j: int) -> T {
        self.data@[i]@[j]
    }

    /// Row `i` as a sequence.
    pub open spec fn row(self, i: int) -> Seq<T> {
        self.data@[i]@
    }

    /// Column `j` as a sequence.
    pub open spec fn column(self, j: int) -> Seq<T> {
        Seq::new(self.rows as nat, |k: int| self.at(k, j))
    }

    /// Both matrices have the same shape.
    pub open spec fn same_shape(self, other: Tensor2D<T>) -> bool {
        self.rows == other.rows && self.cols == other.cols
    }

    /// Same shape and the same entry in every cell.
    pub open spec fn same_values(self, other: Tensor2D<T>) -> bool {
        &&& self.same_shape(other)
        &&& forall|i: int, j: int|
            0 <= i < self.rows && 0 <= j < self.cols ==> #[trigger] self.at(i, j) == other.at(i, j)
    }

    /// `self` is the transpose of `a`.
    pub open spec fn is_transpose_of(self, a: Tensor2D<T>) -> bool {
        &&& self.wf()
        &&& self.rows == a.cols
        &&& self.cols == a.rows
        &&& forall|i: int, j: int|
            0 <= i < self.rows && 0 <= j < self.cols ==> #[trigger] self.at(i, j) == a.at(j, i)
    }

    /// `self` holds `f` applied to each entry of `a`.
    pub open spec fn is_map_of<F: Fn(T) -> T>(self, a: Tensor2D<T>, f: F) -> bool {
        &&& self.wf()
        &&& self.same_shape(a)
        &&& forall|i: int, j: int|
            0 <= i < self.rows && 0 <= j < self.cols ==> f.ensures((a.at(i, j),), #[trigger] self.at(i, j))
    }

    /// `self` holds `f` applied to the entries of `a` and `b` in the same cell.
    pub open spec fn is_zip_of<F: Fn(T, T) -> T>(self, a: Tensor2D<T>, b: Tensor2D<T>, f: F) -> bool {
        &&& self.wf()
        &&& self.same_shape(a)
        &&& self.same_shape(b)
        &&& forall|i: int, j: int|
            0 <= i < self.rows && 0 <= j < self.cols ==> f.ensures(
                (a.at(i, j), b.at(i, j)),
                #[trigger] self.at(i, j),
            )
    }

    /// `self` is a product of `a` and `b` under the given scalar operations.
    pub open spec fn is_product_of<P: Fn(T, T) -> T, M: Fn(T, T) -> T>(
        self,
        a: Tensor2D<T>,
        b: Tensor2D<T>,
        zero: T,
        plus: P,
        times: M,
    ) -> bool {
        &&& self.wf()
        &&& self.rows == a.rows
        &&& self.cols == b.cols
        &&& forall|i: int, j: int|
            0 <= i < self.rows && 0 <= j < self.cols ==> is_dot(
                a.row(i),
                b.column(j),
                zero,
                plus,
                times,
                #[trigger] self.at(i, j),
            )
    }

    /// Whether the store holds `rows` rows of `cols` entries each.
    pub fn is_well_formed(&self) -> (r: bool)
        ensures
            r == self.wf(),
    {
        if self.data.len() != self.rows {
            return false;
        }
        let mut i: usize = 0;
        while i < self.rows
            invariant
                self.data@.len() == self.rows,
                i <= self.rows,
                forall|k: int| 0 <= k < i ==> (#[trigger] self.data@[k])@.len() == self.cols,
            decreases self.rows - i,
        {
            if self.data[i].len() != self.cols {
                return false;
            }
            i = i + 1;
        }
        true
    }

    /// An independent copy with the same shape and entries.
    pub fn duplicate(&self) -> (r: Tensor2D<T>)
        requires
            self.wf(),
        ensures
            r.wf(),
            r.rows == self.rows,
            r.cols == self.cols,
            same_grid(r.data@, self.data@),
    {
        Tensor2D { rows: self.rows, cols: self.cols, data: copy_grid(&self.data) }
    }

    /// A matrix of the given shape with `zero` in every cell.
    pub fn zeros(rows: usize, cols: usize, zero: T) -> (r: Tensor2D<T>)
        ensures
            r.wf(),
            r.rows == rows,
            r.cols == cols,
            forall|i: int, j: int| 0 <= i < rows && 0 <= j < cols ==> #[trigger] r.at(i, j) == zero,
    {
        let mut data: Vec<Vec<T>> = Vec::new();
        let mut i: usize = 0;
        while i < rows
            invariant
                i <= rows,
                data@.len() == i,
                rectangular(data@, cols as int),
                forall|a: int, b: int| 0 <= a < i && 0 <= b < cols ==> #[trigger] data@[a]@[b] == zero,
            decreases rows - i,
        {
            let mut row: Vec<T> = Vec::new();
            let mut j: usize = 0;
            while j < cols
                invariant
                    j <= cols,
                    row@.len() == j,
                    forall|b: int| 0 <= b < j ==> #[trigger] row@[b] == zero,
                decreases cols - j,
            {
                row.push(zero);
                j = j + 1;
            }
            data.push(row);
            i = i + 1;
        }
        Tensor2D { rows, cols, data }
    }

    /// Wraps a rectangular grid; its first row gives the column count, and an
    /// empty grid is the 0 x 0 matrix.
    pub fn from(data: Vec<Vec<T>>) -> (r: Result<Tensor2D<T>, TensorError>)
        ensures
            match r {
                Ok(t) => {
                    &&& t.wf()
                    &&& t.data@ == data@
                    &&& t.rows == data@.len()
                    &&& t.cols == (if data@.len() == 0 { 0 } else { data@[0]@.len() })
                },
                Err(e) => e == TensorError::RaggedRows,
            },
            r.is_ok() <==> (data@.len() == 0 || rectangular(data@, data@[0]@.len() as int)),
    {
        let rows = data.len();
        if rows == 0 {
            return Ok(Tensor2D { rows: 0, cols: 0, data });
        }
        let cols = data[0].len();
        let mut i: usize = 0;
        while i < rows
            invariant
                i <= rows,
                rows == data@.len(),
                cols == data@[0]@.len(),
                forall|a: int| 0 <= a < i ==> (#[trigger] data@[a])@.len() == cols,
            decreases rows - i,
        {
            if data[i].len() != cols {
                return Err(TensorError::RaggedRows);
            }
            i = i + 1;
        }
        Ok(Tensor2D { rows, cols, data })
    }

    /// The matrix product, summing from `zero` with `plus` the products that
    /// `times` gives; the operands must satisfy `self.cols == other.rows`.
    pub fn multiply<P: Fn(T, T) -> T, M: Fn(T, T) -> T>(
        &self,
        other: &Tensor2D<T>,
        zero: T,
        plus: &P,
        times: &M,
    ) -> (r: Result<Tensor2D<T>, TensorError>)
        requires
            self.wf(),
            other.wf(),
            forall|x: T, y: T| plus.requires((x, y)),
            forall|x: T, y: T| times.requires((x, y)),
        ensures
            match r {
                Ok(t) => t.is_product_of(*self, *other, zero, *plus, *times),
                Err(e) => e == TensorError::DimensionMismatch,
            },
            r.is_ok() <==> self.cols == other.rows,
    {
        if self.cols != other.rows {
            return Err(TensorError::DimensionMismatch);
        }
        let mut data: Vec<Vec<T>> = Vec::new();
        let mut i: usize = 0;
        while i < self.rows
            invariant
                self.wf(),
                other.wf(),
                self.cols == other.rows,
                forall|x: T, y: T| plus.requires((x, y)),
                forall|x: T, y: T| times.requires((x, y)),
                i <= self.rows,
                data@.len() == i,
                rectangular(data@, other.cols as int),
                forall|a: int, b: int|
                    0 <= a < i && 0 <= b < other.cols ==> is_dot(
                        self.row(a),
                        other.column(b),
                        zero,
                        *plus,
                        *times,
                        #[trigger] data@[a]@[b],
                    ),
            decreases self.rows - i,
        {
            let mut row: Vec<T> = Vec::new();
            let mut j: usize = 0;
            while j < other.cols
                invariant
                    self.wf(),
                    other.wf(),
                    self.cols == other.rows,
                    forall|x: T, y: T| plus.requires((x, y)),
                    forall|x: T, y: T| times.requires((x, y)),
                    i < self.rows,
                    j <= other.cols,
                    row@.len() == j,
                    forall|b: int|
                        0 <= b < j ==> is_dot(
                            self.row(i as int),
                            other.column(b),
                            zero,
                            *plus,
                            *times,
                            #[trigger] row@[b],
                        ),
                decreases other.cols - j,
            {
                let ghost arow = self.row(i as int);
                let ghost bcol = other.column(j as int);
                let mut sum: T = zero;
                let ghost mut sums: Seq<T> = seq![zero];
                let ghost mut prods: Seq<T> = Seq::empty();
                let mut k: usize = 0;
                while k < self.cols
                    invariant
                        self.wf(),
                        other.wf(),
                        self.cols == other.rows,
                        forall|x: T, y: T| plus.requires((x, y)),
                        forall|x: T, y: T| times.requires((x, y)),
                        i < self.rows,
                        j < other.cols,
                        k <= self.cols,
                        arow == self.row(i as int),
                        bcol == other.column(j as int),
                        dot_steps(arow, bcol, k as int, zero, *plus, *times, sums, prods),
                        sum == sums[k as int],
                    decreases self.cols - k,
                {
                    let p = times(self.data[i][k], other.data[k][j]);
                    let s = plus(sum, p);
                    proof {
                        prods = prods.push(p);
                        sums = sums.push(s);
                    }
                    sum = s;
                    k = k + 1;
                }
                proof {
                    assert(dot_steps(arow, bcol, arow.len() as int, zero, *plus, *times, sums, prods));
                }
                row.push(sum);
                j = j + 1;
            }
            data.push(row);
            i = i + 1;
        }
        Ok(Tensor2D { rows: self.rows, cols: other.cols, data })
    }

    /// The matrix with rows and columns exchanged.
    pub fn transpose(&self) -> (r: Tensor2D<T>)
        requires
            self.wf(),
        ensures
            r.is_transpose_of(*self),
    {
        let mut data: Vec<Vec<T>> = Vec::new();
        let mut j: usize = 0;
        while j < self.cols
            invariant
                self.wf(),
                j <= self.cols,
                data@.len() == j,
                rectangular(data@, self.rows as int),
                forall|a: int, b: int|
                    0 <= a < j && 0 <= b < self.rows ==> #[trigger] data@[a]@[b] == self.at(b, a),
            decreases self.cols - j,
        {
            let mut row: Vec<T> = Vec::new();
            let mut i: usize = 0;
            while i < self.rows
                invariant
                    self.wf(),
                    j < self.cols,
                    i <= self.rows,
                    row@.len() == i,
                    forall|b: int| 0 <= b < i ==> #[trigger] row@[b] == self.at(b, j as int),
                decreases self.rows - i,
            {
                row.push(self.data[i][j]);
                i = i + 1;
            }
            data.push(row);
            j = j + 1;
        }
        Tensor2D { rows: self.cols, cols: self.rows, data }
    }
    /// `f` applied to every entry; the shape is kept.
    pub fn map<F: Fn(T) -> T>(&self, f: &F) -> (r: Tensor2D<T>)
        requires
            self.wf(),
            forall|x: T| f.requires((x,)),
        ensures
            r.is_map_of(*self, *f),
    {
        let mut data: Vec<Vec<T>> = Vec::new();
        let mut i: usize = 0;
        while i < self.rows
            invariant
                self.wf(),
                forall|x: T| f.requires((x,)),
                i <= self.rows,
                data@.len() == i,
                rectangular(data@, self.cols as int),
                forall|a: int, b: int|
                    0 <= a < i && 0 <= b < self.cols ==> f.ensures((self.at(a, b),), #[trigger] data@[a]@[b]),
            decreases self.rows - i,
        {
            let mut row: Vec<T> = Vec::new();
            let mut j: usize = 0;
            while j < self.cols
                invariant
                    self.wf(),
                    forall|x: T| f.requires((x,)),
                    i < self.rows,
                    j <= self.cols,
                    row@.len() == j,
                    forall|b: int| 0 <= b < j ==> f.ensures((self.at(i as int, b),), #[trigger] row@[b]),
                decreases self.cols - j,
            {
                let v = f(self.data[i][j]);
                row.push(v);
                j = j + 1;
            }
            data.push(row);
            i = i + 1;
        }
        Tensor2D { rows: self.rows, cols: self.cols, data }
    }

    /// `self` holds each entry of `a` multiplied by `factor` with `times`.
    pub open spec fn is_scaled_of<M: Fn(T, T) -> T>(self, a: Tensor2D<T>, factor: T, times: M) -> bool {
        &&& self.wf()
        &&& self.same_shape(a)
        &&& forall|i: int, j: int|
            0 <= i < self.rows && 0 <= j < self.cols ==> times.ensures((a.at(i, j), factor), #[trigger] self.at(i, j))
    }

    /// Every entry multiplied by `factor`, with `times` multiplying two scalars.
    pub fn scale<M: Fn(T, T) -> T>(&self, factor: T, times: &M) -> (r: Tensor2D<T>)
        requires
            self.wf(),
            forall|x: T, y: T| times.requires((x, y)),
        ensures
            r.is_scaled_of(*self, factor, *times),
    {
        let by_factor = |x: T| -> (y: T)
            requires
                times.requires((x, factor)),
            ensures
                times.ensures((x, factor), y),
            { times(x, factor) };
        let r = self.map(&by_factor);
        assert forall|i: int, j: int| 0 <= i < r.rows && 0 <= j < r.cols implies times.ensures(
            (self.at(i, j), factor),
            #[trigger] r.at(i, j),
        ) by {
            assert(by_factor.ensures((self.at(i, j),), r.at(i, j)));
        }
        r
    }

    /// `f` applied cell by cell to two matrices of one shape.
    fn zip_with<F: Fn(T, T) -> T>(&self, other: &Tensor2D<T>, f: &F) -> (r: Result<Tensor2D<T>, TensorError>)
        requires
            self.wf(),
            other.wf(),
            forall|x: T, y: T| f.requires((x, y)),
        ensures
            match r {
                Ok(t) => t.is_zip_of(*self, *other, *f),
                Err(e) => e == TensorError::DimensionMismatch,
            },
            r.is_ok() <==> self.same_shape(*other),
    {
        if self.rows != other.rows || self.cols != other.cols {
            return Err(TensorError::DimensionMismatch);
        }
        let mut data: Vec<Vec<T>> = Vec::new();
        let mut i: usize = 0;
        while i < self.rows
            invariant
                self.wf(),
                other.wf(),
                self.same_shape(*other),
                forall|x: T, y: T| f.requires((x, y)),
                i <= self.rows,
                data@.len() == i,
                rectangular(data@, self.cols as int),
                forall|a: int, b: int|
                    0 <= a < i && 0 <= b < self.cols ==> f.ensures(
                        (self.at(a, b), other.at(a, b)),
                        #[trigger] data@[a]@[b],
                    ),
            decreases self.rows - i,
        {
            let mut row: Vec<T> = Vec::new();
            let mut j: usize = 0;
            while j < self.cols
                invariant
                    self.wf(),
                    other.wf(),
                    self.same_shape(*other),
                    forall|x: T, y: T| f.requires((x, y)),
                    i < self.rows,
                    j <= self.cols,
                    row@.len() == j,
                    forall|b: int|
                        0 <= b < j ==> f.ensures(
                            (self.at(i as int, b), other.at(i as int, b)),
                            #[trigger] row@[b],
                        ),
                decreases self.cols - j,
            {
                let v = f(self.data[i][j], other.data[i][j]);
                row.push(v);
                j = j + 1;
            }
            data.push(row);
            i = i + 1;
        }
        Ok(Tensor2D { rows: self.rows, cols: self.cols, data })
    }

    /// The sum cell by cell, with `plus` adding two scalars.
    pub fn add<F: Fn(T, T) -> T>(&self, other: &Tensor2D<T>, plus: &F) -> (r: Result<Tensor2D<T>, TensorError>)
        requires
            self.wf(),
            other.wf(),
            forall|x: T, y: T| plus.requires((x, y)),
        ensures
            match r {
                Ok(t) => t.is_zip_of(*self, *other, *plus),
                Err(e) => e == TensorError::DimensionMismatch,
            },
            r.is_ok() <==> self.same_shape(*other),
    {
        self.zip_with(other, plus)
    }

    /// The difference cell by cell, with `minus` subtracting two scalars.
    pub fn subtract<F: Fn(T, T) -> T>(&self, other: &Tensor2D<T>, minus: &F) -> (r: Result<Tensor2D<T>, TensorError>)
        requires
            self.wf(),
            other.wf(),
            forall|x: T, y: T| minus.requires((x, y)),
        ensures
            match r {
                Ok(t) => t.is_zip_of(*self, *other, *minus),
                Err(e) => e == TensorError::DimensionMismatch,
            },
            r.is_ok() <==> self.same_shape(*other),
    {
        self.zip_with(other, minus)
    }

    /// The Hadamard product, with `times` multiplying two scalars.
    pub fn dot_multiply<F: Fn(T, T) -> T>(&self, other: &Tensor2D<T>, times: &F) -> (r: Result<Tensor2D<T>, TensorError>)
        requires
            self.wf(),
            other.wf(),
            forall|x: T, y: T| times.requires((x, y)),
        ensures
            match r {
                Ok(t) => t.is_zip_of(*self, *other, *times),
                Err(e) => e == TensorError::DimensionMismatch,
            },
            r.is_ok() <==> self.same_shape(*other),
    {
        self.zip_with(other, times)
    }
}

} // verus!
