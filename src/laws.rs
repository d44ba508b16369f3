//! Algebraic laws of the matrix operations, stated over the relations that
//! the operations' own contracts establish.
use vstd::prelude::*;
use crate::tensor::{dot_steps, Tensor2D};

verus! {

/// The dot product of the first `n` entries of `row` and `col`, summed from
/// `zero` in order of the index with the scalar functions `plus` and `times`.
pub open spec fn dot_value<T>(
    row: Seq<T>,
    col: Seq<T>,
    n: nat,
    zero: T,
    plus: spec_fn(T, T) -> T,
    times: spec_fn(T, T) -> T,
) -> T
    decreases n,
{
    if n == 0 {
        zero
    } else {
        plus(
            dot_value(row, col, (n - 1) as nat, zero, plus, times),
            times(row[n - 1], col[n - 1]),
        )
    }
}

proof fn lemma_steps_follow_value<T, P: Fn(T, T) -> T, M: Fn(T, T) -> T>(
    row: Seq<T>,
    col: Seq<T>,
    n: int,
    zero: T,
    plus: P,
    times: M,
    sums: Seq<T>,
    prods: Seq<T>,
    fp: spec_fn(T, T) -> T,
    fm: spec_fn(T, T) -> T,
)
    requires
        0 <= n,
        dot_steps(row, col, n, zero, plus, times, sums, prods),
        forall|x: T, y: T, z: T| plus.ensures((x, y), z) ==> z == fp(x, y),
        forall|x: T, y: T, z: T| times.ensures((x, y), z) ==> z == fm(x, y),
    ensures
        forall|k: int| 0 <= k <= n ==> #[trigger] sums[k] == dot_value(row, col, k as nat, zero, fp, fm),
    decreases n,
{
    if n > 0 {
        let sums0 = sums.drop_last();
        let prods0 = prods.drop_last();
        assert(dot_steps(row, col, n - 1, zero, plus, times, sums0, prods0)) by {
            assert forall|k: int| 0 <= k < n - 1 implies times.ensures((row[k], col[k]), #[trigger] prods0[k]) by {
                assert(times.ensures((row[k], col[k]), prods[k]));
            }
            assert forall|k: int| 0 <= k < n - 1 implies plus.ensures((#[trigger] sums0[k], prods0[k]), sums0[k + 1]) by {
                assert(plus.ensures((sums[k], prods[k]), sums[k + 1]));
            }
        }
        lemma_steps_follow_value(row, col, n - 1, zero, plus, times, sums0, prods0, fp, fm);
        assert(sums0[n - 1] == sums[n - 1]);
        assert(times.ensures((row[n - 1], col[n - 1]), prods[n - 1]));
        assert(plus.ensures((sums[n - 1], prods[n - 1]), sums[n]));
        assert forall|k: int| 0 <= k <= n implies #[trigger] sums[k] == dot_value(row, col, k as nat, zero, fp, fm) by {
            if k < n {
                assert(sums0[k] == sums[k]);
            }
        }
    }
}

/// Matrix product: when `plus` and `times` are the scalar functions `fp` and
/// `fm`, the product of an m x n and an n x p matrix is m x p, and its entry
/// (i, j) is the sum over k of `a[i][k] * b[k][j]`.
pub proof fn law_multiply_entries<T: Copy, P: Fn(T, T) -> T, M: Fn(T, T) -> T>(
    a: Tensor2D<T>,
    b: Tensor2D<T>,
    r: Tensor2D<T>,
    zero: T,
    plus: P,
    times: M,
    fp: spec_fn(T, T) -> T,
    fm: spec_fn(T, T) -> T,
)
    requires
        a.wf(),
        b.wf(),
        a.cols == b.rows,
        r.is_product_of(a, b, zero, plus, times),
        forall|x: T, y: T, z: T| plus.ensures((x, y), z) ==> z == fp(x, y),
        forall|x: T, y: T, z: T| times.ensures((x, y), z) ==> z == fm(x, y),
    ensures
        r.rows == a.rows,
        r.cols == b.cols,
        forall|i: int, j: int|
            0 <= i < r.rows && 0 <= j < r.cols ==> #[trigger] r.at(i, j) == dot_value(
                a.row(i),
                b.column(j),
                a.cols as nat,
                zero,
                fp,
                fm,
            ),
{
    assert forall|i: int, j: int| 0 <= i < r.rows && 0 <= j < r.cols implies #[trigger] r.at(i, j)
        == dot_value(a.row(i), b.column(j), a.cols as nat, zero, fp, fm) by {
        let row = a.row(i);
        let col = b.column(j);
        assert(row.len() == a.cols);
        let (sums, prods) = choose|sums: Seq<T>, prods: Seq<T>|
            #[trigger] dot_steps(row, col, row.len() as int, zero, plus, times, sums, prods)
                && r.at(i, j) == sums[row.len() as int];
        lemma_steps_follow_value(row, col, row.len() as int, zero, plus, times, sums, prods, fp, fm);
    }
}

/// Transposing twice gives back the matrix.
pub proof fn law_transpose_round_trip<T: Copy>(a: Tensor2D<T>, t: Tensor2D<T>, tt: Tensor2D<T>)
    requires
        a.wf(),
        t.is_transpose_of(a),
        tt.is_transpose_of(t),
    ensures
        tt.same_values(a),
{
}

/// Addition of matrices commutes when the scalar addition does.
pub proof fn law_add_commutes<T: Copy, P: Fn(T, T) -> T>(
    a: Tensor2D<T>,
    b: Tensor2D<T>,
    ab: Tensor2D<T>,
    ba: Tensor2D<T>,
    plus: P,
    fp: spec_fn(T, T) -> T,
)
    requires
        a.wf(),
        b.wf(),
        a.same_shape(b),
        ab.is_zip_of(a, b, plus),
        ba.is_zip_of(b, a, plus),
        forall|x: T, y: T, z: T| plus.ensures((x, y), z) ==> z == fp(x, y),
        forall|x: T, y: T| #[trigger] fp(x, y) == fp(y, x),
    ensures
        ab.same_values(ba),
{
    assert forall|i: int, j: int| 0 <= i < ab.rows && 0 <= j < ab.cols implies #[trigger] ab.at(i, j)
        == ba.at(i, j) by {
        assert(plus.ensures((a.at(i, j), b.at(i, j)), ab.at(i, j)));
        assert(plus.ensures((b.at(i, j), a.at(i, j)), ba.at(i, j)));
        assert(fp(a.at(i, j), b.at(i, j)) == fp(b.at(i, j), a.at(i, j)));
    }
}

/// Mapping the identity over a matrix gives back the matrix.
pub proof fn law_map_identity<T: Copy, F: Fn(T) -> T>(a: Tensor2D<T>, r: Tensor2D<T>, f: F)
    requires
        a.wf(),
        r.is_map_of(a, f),
        forall|x: T, y: T| f.ensures((x,), y) ==> y == x,
    ensures
        r.same_values(a),
{
    assert forall|i: int, j: int| 0 <= i < r.rows && 0 <= j < r.cols implies #[trigger] r.at(i, j)
        == a.at(i, j) by {
        assert(f.ensures((a.at(i, j),), r.at(i, j)));
    }
}

} // verus!
