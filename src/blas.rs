//! Reordering of batched buffers between layouts; entries are moved, never
//! combined, so the element type is generic.
use vstd::prelude::*;
use vstd::arithmetic::div_mod::{lemma_fundamental_div_mod, lemma_fundamental_div_mod_converse};
use vstd::arithmetic::mul::lemma_mul_is_associative;
use crate::tensor::copy_row;

verus! {

/// Where entry `i` of channel `c` of batch item `b` sits when each channel's
/// `size` entries are contiguous.
pub open spec fn planar_pos(b: int, c: int, i: int, size: int, layers: int) -> int {
    b * (layers * size) + c * size + i
}

/// Where the same entry sits when the `layers` channels of each position are
/// contiguous.
pub open spec fn interleaved_pos(b: int, c: int, i: int, size: int, layers: int) -> int {
    b * (layers * size) + i * layers + c
}

/// The interleaved position of the entry at planar position `p`.
pub open spec fn interleaved_of(p: int, size: int, layers: int) -> int {
    interleaved_pos(p / (layers * size), (p % (layers * size)) / size, (p % (layers * size)) % size, size, layers)
}

proof fn lemma_planar_parts(b: int, c: int, i: int, size: int, layers: int, batch: int)
    requires
        0 <= b < batch,
        0 <= c < layers,
        0 <= i < size,
    ensures
        ({
            let p = planar_pos(b, c, i, size, layers);
            &&& 0 <= p < batch * (layers * size)
            &&& p / (layers * size) == b
            &&& (p % (layers * size)) / size == c
            &&& (p % (layers * size)) % size == i
        }),
{
    let ls = layers * size;
    let p = planar_pos(b, c, i, size, layers);
    assert(0 <= c * size + i < ls) by (nonlinear_arith)
        requires 0 <= c < layers, 0 <= i < size, ls == layers * size;
    assert(0 <= p < batch * ls) by (nonlinear_arith)
        requires 0 <= b < batch, p == b * ls + (c * size + i), 0 <= c * size + i < ls;
    assert(p == b * ls + (c * size + i));
    lemma_fundamental_div_mod_converse(p, ls, b, c * size + i);
    lemma_fundamental_div_mod_converse(c * size + i, size, c, i);
}

proof fn lemma_interleaved_parts(b: int, c: int, i: int, size: int, layers: int, batch: int)
    requires
        0 <= b < batch,
        0 <= c < layers,
        0 <= i < size,
    ensures
        ({
            let q = interleaved_pos(b, c, i, size, layers);
            &&& 0 <= q < batch * (layers * size)
            &&& q % layers == c
            &&& (q / layers) % size == i
            &&& (q / layers) / size == b
        }),
{
    let ls = layers * size;
    let q = interleaved_pos(b, c, i, size, layers);
    assert(q == (b * size + i) * layers + c && 0 <= q < batch * ls) by (nonlinear_arith)
        requires
            0 <= b < batch,
            0 <= c < layers,
            0 <= i < size,
            ls == layers * size,
            q == b * ls + i * layers + c;
    lemma_fundamental_div_mod_converse(q, layers, b * size + i, c);
    lemma_fundamental_div_mod_converse(b * size + i, size, b, i);
}

proof fn lemma_split_planar(p: int, size: int, layers: int, batch: int)
    requires
        size > 0,
        layers > 0,
        0 <= p < batch * (layers * size),
    ensures
        0 <= p / (layers * size) < batch,
        0 <= (p % (layers * size)) / size < layers,
        0 <= (p % (layers * size)) % size < size,
        planar_pos(p / (layers * size), (p % (layers * size)) / size, (p % (layers * size)) % size, size, layers) == p,
{
    let ls = layers * size;
    assert(ls > 0) by (nonlinear_arith)
        requires size > 0, layers > 0, ls == layers * size;
    lemma_fundamental_div_mod(p, ls);
    let b = p / ls;
    let r = p % ls;
    lemma_fundamental_div_mod(r, size);
    let c = r / size;
    let i = r % size;
    assert(0 <= b < batch && 0 <= c < layers) by (nonlinear_arith)
        requires
            0 <= p < batch * ls,
            p == ls * b + r,
            0 <= r < ls,
            r == size * c + i,
            0 <= i < size,
            ls == layers * size,
            size > 0;
}

/// Moves every entry between the planar layout and the interleaved layout of
/// `batch` items of `layers` channels of `size` entries: forward, from planar
/// to interleaved; backward, the other way.
pub fn flatten<T: Copy>(x: &mut Vec<T>, size: usize, layers: usize, batch: usize, forward: bool)
    requires
        old(x)@.len() == size * layers * batch,
    ensures
        final(x)@.len() == old(x)@.len(),
        forall|b: int, c: int, i: int|
            #![trigger planar_pos(b, c, i, size as int, layers as int)]
            0 <= b < batch && 0 <= c < layers && 0 <= i < size ==> {
                &&& forward ==> final(x)@[interleaved_pos(b, c, i, size as int, layers as int)]
                    == old(x)@[planar_pos(b, c, i, size as int, layers as int)]
                &&& !forward ==> final(x)@[planar_pos(b, c, i, size as int, layers as int)]
                    == old(x)@[interleaved_pos(b, c, i, size as int, layers as int)]
            },
{
    let n = x.len();
    if n == 0 {
        proof {
            assert forall|b: int, c: int, i: int|
                #![trigger planar_pos(b, c, i, size as int, layers as int)]
                0 <= b < batch && 0 <= c < layers && 0 <= i < size implies false by {
                assert(size * layers * batch > 0) by (nonlinear_arith)
                    requires 0 <= b < batch, 0 <= c < layers, 0 <= i < size;
            }
        }
        return;
    }
    proof {
        assert(size > 0 && layers > 0 && batch > 0 && layers * size <= n) by (nonlinear_arith)
            requires n == size * layers * batch, n > 0;
        lemma_mul_is_associative(size as int, layers as int, batch as int);
        assert(n == batch * (layers * size)) by (nonlinear_arith)
            requires n == size * layers * batch;
        assert(layers * size > 0) by (nonlinear_arith)
            requires layers > 0, size > 0;
    }
    let ls = layers * size;
    let ghost src = x@;
    let mut swap = copy_row(x);
    let mut p: usize = 0;
    while p < n
        invariant
            n == src.len(),
            x@ == src,
            size > 0,
            layers > 0,
            ls == layers * size,
            ls > 0,
            n == batch * (layers * size),
            swap@.len() == n,
            p <= n,
            forward ==> forall|k: int| 0 <= k < p ==> swap@[#[trigger] interleaved_of(k, size as int, layers as int)] == src[k],
            !forward ==> forall|k: int| 0 <= k < p ==> #[trigger] swap@[k] == src[interleaved_of(k, size as int, layers as int)],
        decreases n - p,
    {
        let b = p / ls;
        let c = (p % ls) / size;
        let i = (p % ls) % size;
        proof {
            lemma_split_planar(p as int, size as int, layers as int, batch as int);
            lemma_interleaved_parts(b as int, c as int, i as int, size as int, layers as int, batch as int);
            assert(b * ls + i * layers <= n) by (nonlinear_arith)
                requires b * ls + i * layers + c < n, c >= 0, b >= 0, i >= 0, layers > 0, ls > 0;
        }
        let q = b * ls + i * layers + c;
        if forward {
            proof {
                assert forall|k: int| 0 <= k < p implies #[trigger] interleaved_of(k, size as int, layers as int) != q
                    && 0 <= interleaved_of(k, size as int, layers as int) < n by {
                    lemma_split_planar(k, size as int, layers as int, batch as int);
                    let ls_i = layers as int * size as int;
                    let kb = k / ls_i;
                    let kc = (k % ls_i) / (size as int);
                    let ki = (k % ls_i) % (size as int);
                    lemma_interleaved_parts(kb, kc, ki, size as int, layers as int, batch as int);
                }
            }
            let ghost before = swap@;
            swap.set(q, x[p]);
            assert(interleaved_of(p as int, size as int, layers as int) == q);
            assert forall|k: int| 0 <= k < p implies swap@[#[trigger] interleaved_of(k, size as int, layers as int)] == src[k] by {
                assert(before[interleaved_of(k, size as int, layers as int)] == src[k]);
            }
        } else {
            swap.set(p, x[q]);
            assert(interleaved_of(p as int, size as int, layers as int) == q);
        }
        p = p + 1;
    }
    proof {
        assert forall|b: int, c: int, i: int|
            #![trigger planar_pos(b, c, i, size as int, layers as int)]
            0 <= b < batch && 0 <= c < layers && 0 <= i < size implies {
                &&& forward ==> swap@[interleaved_pos(b, c, i, size as int, layers as int)]
                    == src[planar_pos(b, c, i, size as int, layers as int)]
                &&& !forward ==> swap@[planar_pos(b, c, i, size as int, layers as int)]
                    == src[interleaved_pos(b, c, i, size as int, layers as int)]
            } by {
            lemma_planar_parts(b, c, i, size as int, layers as int, batch as int);
            let k = planar_pos(b, c, i, size as int, layers as int);
            assert(interleaved_of(k, size as int, layers as int) == interleaved_pos(b, c, i, size as int, layers as int));
        }
    }
    *x = swap;
}

/// The position of entry (`i`, `j`) of channel `k` of batch item `b` in a
/// buffer of `w` x `h` planes with `c` channels.
pub open spec fn reorg_in_pos(i: int, j: int, k: int, b: int, w: int, h: int, c: int) -> int {
    i + w * (j + h * (k + c * b))
}

/// Where `reorg_cpu` moves that entry: to a buffer of `w * stride` x
/// `h * stride` planes with `c / (stride * stride)` channels, channel `k`
/// giving the cell within each `stride` x `stride` block.
pub open spec fn reorg_out_pos(i: int, j: int, k: int, b: int, w: int, h: int, c: int, stride: int) -> int {
    let out_c = c / (stride * stride);
    let c2 = k % out_c;
    let offset = k / out_c;
    let w2 = i * stride + offset % stride;
    let h2 = j * stride + offset / stride;
    w2 + w * stride * (h2 + h * stride * (c2 + out_c * b))
}

proof fn lemma_split(p: int, d: int, bound: int)
    requires
        d > 0,
        0 <= p < d * bound,
    ensures
        p == d * (p / d) + p % d,
        0 <= p % d < d,
        0 <= p / d < bound,
{
    lemma_fundamental_div_mod(p, d);
    let q = p / d;
    let r = p % d;
    assert(0 <= q < bound) by (nonlinear_arith)
        requires p == d * q + r, 0 <= r < d, 0 <= p < d * bound, d > 0;
}

/// The entry of the input buffer at position `p` and its coordinates.
pub open spec fn reorg_coords(p: int, w: int, h: int, c: int) -> (int, int, int, int) {
    (p % w, (p / w) % h, ((p / w) / h) % c, ((p / w) / h) / c)
}

/// Where `reorg_cpu` moves the entry at input position `p`.
pub open spec fn reorg_target(p: int, w: int, h: int, c: int, stride: int) -> int {
    let (i, j, k, b) = reorg_coords(p, w, h, c);
    reorg_out_pos(i, j, k, b, w, h, c, stride)
}

proof fn lemma_in_pos_coords(i: int, j: int, k: int, b: int, w: int, h: int, c: int)
    requires
        0 <= i < w,
        0 <= j < h,
        0 <= k < c,
        0 <= b,
    ensures
        reorg_coords(reorg_in_pos(i, j, k, b, w, h, c), w, h, c) == (i, j, k, b),
{
    let p = reorg_in_pos(i, j, k, b, w, h, c);
    assert(p == (j + h * (k + c * b)) * w + i && j + h * (k + c * b) == (k + c * b) * h + j && k + c * b == b * c + k)
        by (nonlinear_arith)
        requires p == i + w * (j + h * (k + c * b));
    lemma_fundamental_div_mod_converse(p, w, j + h * (k + c * b), i);
    lemma_fundamental_div_mod_converse(j + h * (k + c * b), h, k + c * b, j);
    lemma_fundamental_div_mod_converse(k + c * b, c, b, k);
}

proof fn lemma_reorg_coords(p: int, w: int, h: int, c: int, batch: int)
    requires
        w > 0,
        h > 0,
        c > 0,
        0 <= p < w * h * c * batch,
    ensures
        ({
            let (i, j, k, b) = reorg_coords(p, w, h, c);
            &&& 0 <= i < w && 0 <= j < h && 0 <= k < c && 0 <= b < batch
            &&& reorg_in_pos(i, j, k, b, w, h, c) == p
        }),
{
    assert(w * h * c * batch == w * (h * (c * batch))) by (nonlinear_arith);
    assert(c * batch > 0 || p < 0) by (nonlinear_arith)
        requires 0 <= p < w * (h * (c * batch)), w > 0, h > 0, c > 0;
    assert(h * (c * batch) > 0) by (nonlinear_arith)
        requires h > 0, c * batch > 0;
    lemma_split(p, w, h * (c * batch));
    lemma_split(p / w, h, c * batch);
    lemma_split((p / w) / h, c, batch);
    let (i, j, k, b) = reorg_coords(p, w, h, c);
    assert(reorg_in_pos(i, j, k, b, w, h, c) == p) by (nonlinear_arith)
        requires
            p == w * (p / w) + i,
            p / w == h * ((p / w) / h) + j,
            (p / w) / h == c * b + k;
}

proof fn lemma_reorg_out(i: int, j: int, k: int, b: int, w: int, h: int, c: int, stride: int, batch: int)
    requires
        stride > 0,
        c % (stride * stride) == 0,
        0 <= i < w,
        0 <= j < h,
        0 <= k < c,
        0 <= b < batch,
    ensures
        ({
            let q = reorg_out_pos(i, j, k, b, w, h, c, stride);
            let out_c = c / (stride * stride);
            let ws = w * stride;
            let hs = h * stride;
            let w2 = q % ws;
            let h2 = (q / ws) % hs;
            let c2 = ((q / ws) / hs) % out_c;
            &&& 0 <= q < w * h * c * batch
            &&& out_c > 0
            &&& ws <= w * h * c * batch && hs <= w * h * c * batch
            &&& 0 <= k % out_c < out_c
            &&& 0 <= i * stride <= i * stride + (k / out_c) % stride < ws
            &&& 0 <= j * stride <= j * stride + (k / out_c) / stride < hs
            &&& 0 <= out_c * b <= k % out_c + out_c * b < w * h * c * batch
            &&& 0 <= hs * (k % out_c + out_c * b) <= j * stride + (k / out_c) / stride + hs * (k % out_c + out_c * b) < w * h * c * batch
            &&& 0 <= ws * (j * stride + (k / out_c) / stride + hs * (k % out_c + out_c * b)) <= q
            &&& ((q / ws) / hs) / out_c == b
            &&& (h2 % stride * stride + w2 % stride) * out_c + c2 == k
            &&& w2 / stride == i
            &&& h2 / stride == j
        }),
{
    let ss = stride * stride;
    let out_c = c / ss;
    assert(ss > 0) by (nonlinear_arith)
        requires stride > 0, ss == stride * stride;
    lemma_fundamental_div_mod(c, ss);
    assert(c == ss * out_c);
    assert(out_c > 0) by (nonlinear_arith)
        requires c == ss * out_c, 0 <= k < c, ss > 0;
    let c2 = k % out_c;
    let offset = k / out_c;
    lemma_split(k, out_c, ss);
    assert(0 <= offset < stride * stride);
    lemma_split(offset, stride, stride);
    let ws = w * stride;
    let hs = h * stride;
    let w2 = i * stride + offset % stride;
    let h2 = j * stride + offset / stride;
    assert(0 <= w2 < ws && 0 <= h2 < hs) by (nonlinear_arith)
        requires
            0 <= i < w,
            0 <= j < h,
            0 <= offset % stride < stride,
            0 <= offset / stride < stride,
            w2 == i * stride + offset % stride,
            h2 == j * stride + offset / stride,
            ws == w * stride,
            hs == h * stride;
    assert(ws > 0 && hs > 0 && out_c * batch > 0) by (nonlinear_arith)
        requires 0 <= w2 < ws, 0 <= h2 < hs, out_c > 0, 0 <= b < batch;
    let q = reorg_out_pos(i, j, k, b, w, h, c, stride);
    let r2 = c2 + out_c * b;
    let r = h2 + hs * r2;
    assert(q == w2 + ws * r) by (nonlinear_arith)
        requires
            q == w2 + w * stride * (h2 + h * stride * (c2 + out_c * b)),
            ws == w * stride,
            hs == h * stride,
            r == h2 + hs * r2,
            r2 == c2 + out_c * b;
    assert(0 <= r2 < out_c * batch) by (nonlinear_arith)
        requires r2 == c2 + out_c * b, 0 <= c2 < out_c, 0 <= b < batch;
    assert(0 <= r < hs * (out_c * batch)) by (nonlinear_arith)
        requires r == h2 + hs * r2, 0 <= h2 < hs, 0 <= r2 < out_c * batch;
    assert(0 <= q < ws * (hs * (out_c * batch))) by (nonlinear_arith)
        requires q == w2 + ws * r, 0 <= w2 < ws, 0 <= r < hs * (out_c * batch);
    assert(ws * (hs * (out_c * batch)) == w * h * c * batch) by (nonlinear_arith)
        requires ws == w * stride, hs == h * stride, c == stride * stride * out_c;
    assert(q == r * ws + w2 && r == r2 * hs + h2 && r2 == b * out_c + c2) by (nonlinear_arith)
        requires q == w2 + ws * r, r == h2 + hs * r2, r2 == c2 + out_c * b;
    assert(0 <= i * stride && 0 <= j * stride && 0 <= out_c * b) by (nonlinear_arith)
        requires 0 <= i, 0 <= j, 0 <= b, stride > 0, out_c > 0;
    assert(0 <= hs * r2 <= r && 0 <= ws * r <= q) by (nonlinear_arith)
        requires r == h2 + hs * r2, q == w2 + ws * r, 0 <= h2, 0 <= w2, 0 <= r2, hs >= 0, ws >= 0, r >= 0;
    assert(ws <= ws * (hs * (out_c * batch)) && hs <= ws * (hs * (out_c * batch))
        && r < ws * (hs * (out_c * batch)) && r2 < ws * (hs * (out_c * batch))) by (nonlinear_arith)
        requires
            0 < ws, 0 < hs, 0 < out_c * batch,
            0 <= r < hs * (out_c * batch),
            0 <= r2 < out_c * batch;
    lemma_fundamental_div_mod_converse(q, ws, r, w2);
    lemma_fundamental_div_mod_converse(r, hs, r2, h2);
    lemma_fundamental_div_mod_converse(r2, out_c, b, c2);
    lemma_fundamental_div_mod_converse(w2, stride, i, offset % stride);
    lemma_fundamental_div_mod_converse(h2, stride, j, offset / stride);
    assert(offset == stride * (offset / stride) + offset % stride);
    assert(k == out_c * offset + c2);
    assert((h2 % stride * stride + w2 % stride) * out_c + c2 == k) by (nonlinear_arith)
        requires
            h2 % stride == offset / stride,
            w2 % stride == offset % stride,
            offset == stride * (offset / stride) + offset % stride,
            k == out_c * offset + c2;
}

/// Moves every entry of `batch` items of `c` channels of `w` x `h` planes
/// between that layout and one with `stride` times the width and height and
/// `c / (stride * stride)` channels. Forward, `out` receives the moved
/// entries of `x`; backward, `out` receives in the first layout the entries
/// of `x` read from the second. Entries of `out` past the
/// `w * h * c * batch` moved ones stay as they were.
pub fn reorg_cpu<T: Copy>(
    x: &Vec<T>,
    w: usize,
    h: usize,
    c: usize,
    batch: usize,
    stride: usize,
    forward: bool,
    out: &mut Vec<T>,
)
    requires
        stride > 0,
        c as int % (stride as int * stride as int) == 0,
        x@.len() >= w * h * c * batch,
        old(out)@.len() >= w * h * c * batch,
    ensures
        final(out)@.len() == old(out)@.len(),
        forall|m: int| w * h * c * batch <= m < old(out)@.len() ==> #[trigger] final(out)@[m] == old(out)@[m],
        forall|i: int, j: int, k: int, b: int|
            #![trigger reorg_in_pos(i, j, k, b, w as int, h as int, c as int)]
            0 <= i < w && 0 <= j < h && 0 <= k < c && 0 <= b < batch ==> {
                &&& forward ==> final(out)@[reorg_out_pos(i, j, k, b, w as int, h as int, c as int, stride as int)]
                    == x@[reorg_in_pos(i, j, k, b, w as int, h as int, c as int)]
                &&& !forward ==> final(out)@[reorg_in_pos(i, j, k, b, w as int, h as int, c as int)]
                    == x@[reorg_out_pos(i, j, k, b, w as int, h as int, c as int, stride as int)]
            },
{
    if w == 0 || h == 0 || c == 0 || batch == 0 {
        proof {
            assert forall|i: int, j: int, k: int, b: int|
                #![trigger reorg_in_pos(i, j, k, b, w as int, h as int, c as int)]
                0 <= i < w && 0 <= j < h && 0 <= k < c && 0 <= b < batch implies false by {
            }
            assert(w * h * c * batch == 0) by (nonlinear_arith)
                requires w == 0 || h == 0 || c == 0 || batch == 0;
        }
        return;
    }
    proof {
        assert(w * h <= w * h * c && w * h * c <= w * h * c * batch) by (nonlinear_arith)
            requires w > 0, h > 0, c > 0, batch > 0;
        assert(stride * stride <= c) by (nonlinear_arith)
            requires c as int % (stride as int * stride as int) == 0, c > 0, stride > 0;
        assert(stride <= stride * stride) by (nonlinear_arith)
            requires stride > 0;
        assert(w * stride <= w * h * c * batch && h * stride <= w * h * c * batch) by (nonlinear_arith)
            requires stride <= c, w > 0, h > 0, c > 0, batch > 0;
        assert(c * batch <= w * h * c * batch) by (nonlinear_arith)
            requires w > 0, h > 0, c > 0, batch > 0;
    }
    let x_len = x.len();
    let n = w * h * c * batch;
    let out_c = c / (stride * stride);
    proof {
        let ss = stride as int * stride as int;
        lemma_fundamental_div_mod(c as int, ss);
        assert(out_c > 0) by (nonlinear_arith)
            requires c == ss * out_c + c as int % ss, c as int % ss == 0, c > 0, ss > 0;
    }
    let ghost start = out@;
    let mut p: usize = 0;
    while p < n
        invariant
            n == w * h * c * batch,
            w > 0 && h > 0 && c > 0 && batch > 0,
            stride > 0,
            c as int % (stride as int * stride as int) == 0,
            out_c == c as int / (stride as int * stride as int),
            out_c > 0,
            x@.len() >= n,
            out@.len() == start.len(),
            start.len() >= n,
            p <= n,
            forall|m: int| n <= m < start.len() ==> #[trigger] out@[m] == start[m],
            forward ==> forall|q: int| 0 <= q < p ==> out@[#[trigger] reorg_target(q, w as int, h as int, c as int, stride as int)] == x@[q],
            !forward ==> forall|q: int| 0 <= q < p ==> #[trigger] out@[q] == x@[reorg_target(q, w as int, h as int, c as int, stride as int)],
        decreases n - p,
    {
        let i = p % w;
        let j = (p / w) % h;
        let k = ((p / w) / h) % c;
        let b = ((p / w) / h) / c;
        proof {
            lemma_reorg_coords(p as int, w as int, h as int, c as int, batch as int);
            lemma_reorg_out(i as int, j as int, k as int, b as int, w as int, h as int, c as int, stride as int, batch as int);
        }
        let ghost target = reorg_out_pos(i as int, j as int, k as int, b as int, w as int, h as int, c as int, stride as int);
        let c2 = k % out_c;
        let offset = k / out_c;
        let w2 = i * stride + offset % stride;
        let h2 = j * stride + offset / stride;
        let out_index = w2 + w * stride * (h2 + h * stride * (c2 + out_c * b));
        if forward {
            let ghost before = out@;
            out.set(out_index, x[p]);
            proof {
                assert(reorg_target(p as int, w as int, h as int, c as int, stride as int) == target);
                assert forall|q: int| 0 <= q < p implies out@[#[trigger] reorg_target(q, w as int, h as int, c as int, stride as int)] == x@[q] by {
                    lemma_reorg_coords(q, w as int, h as int, c as int, batch as int);
                    let (qi, qj, qk, qb) = reorg_coords(q, w as int, h as int, c as int);
                    lemma_reorg_out(qi, qj, qk, qb, w as int, h as int, c as int, stride as int, batch as int);
                    let t = reorg_out_pos(qi, qj, qk, qb, w as int, h as int, c as int, stride as int);
                    assert(t == reorg_target(q, w as int, h as int, c as int, stride as int));
                    assert(t != target);
                    assert(before[t] == x@[q]);
                }
            }
        } else {
            out.set(p, x[out_index]);
            assert(reorg_target(p as int, w as int, h as int, c as int, stride as int) == target);
        }
        p = p + 1;
    }
    proof {
        assert forall|i: int, j: int, k: int, b: int|
            #![trigger reorg_in_pos(i, j, k, b, w as int, h as int, c as int)]
            0 <= i < w && 0 <= j < h && 0 <= k < c && 0 <= b < batch implies {
                &&& forward ==> out@[reorg_out_pos(i, j, k, b, w as int, h as int, c as int, stride as int)]
                    == x@[reorg_in_pos(i, j, k, b, w as int, h as int, c as int)]
                &&& !forward ==> out@[reorg_in_pos(i, j, k, b, w as int, h as int, c as int)]
                    == x@[reorg_out_pos(i, j, k, b, w as int, h as int, c as int, stride as int)]
            } by {
            let q = reorg_in_pos(i, j, k, b, w as int, h as int, c as int);
            assert(0 <= q < n) by (nonlinear_arith)
                requires
                    q == i + w * (j + h * (k + c * b)),
                    0 <= i < w, 0 <= j < h, 0 <= k < c, 0 <= b < batch,
                    n == w * h * c * batch;
            lemma_in_pos_coords(i, j, k, b, w as int, h as int, c as int);
            lemma_reorg_out(i, j, k, b, w as int, h as int, c as int, stride as int, batch as int);
            assert(reorg_target(q, w as int, h as int, c as int, stride as int) == reorg_out_pos(i, j, k, b, w as int, h as int, c as int, stride as int));
        }
    }
}

} // verus!
