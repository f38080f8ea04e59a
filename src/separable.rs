//! A row pass followed by a column pass against one pass with their outer
//! product: the two agree up to the rounding of the intermediate buffer.
use vstd::prelude::*;
use vstd::arithmetic::div_mod::{
    lemma_fundamental_div_mod, lemma_fundamental_div_mod_converse, lemma_mod_pos_bound,
};
use crate::engine::{
    clamp_coord, convolution, lemma_index_decompose, lemma_index_in_bounds, output_sample,
    sample_index, shape_ok, tap, window_sum,
};
use crate::kernel::{
    box_row, box_square, column_of, distance, gaussian_row, gaussian_square, lemma_gaussian_shape,
    lemma_sum_of_ones, lemma_weight_sum_step, taps, valid_samples, weight_sum, KernelModel,
};
use crate::laws::{kernel_shape_ok, lemma_decompose_bounds};

verus! {

/// `full` is the outer product of the one-column kernel `col` and the one-row
/// kernel `row`: cell `(i, j)` weighs `col[i] * row[j]`.
pub open spec fn is_outer(full: KernelModel, col: KernelModel, row: KernelModel) -> bool {
    &&& row.rows == 1
    &&& col.cols == 1
    &&& full.rows == col.rows
    &&& full.cols == row.cols
    &&& full.weights.len() == full.rows * full.cols
    &&& forall|u: int|
        0 <= u < full.weights.len() ==> #[trigger] full.weights[u] == col.weights[u / row.cols as int]
            * row.weights[u % row.cols as int]
}

/// A blur kernel: well shaped, non-negative and normalized.
pub open spec fn blur_kernel(k: KernelModel) -> bool {
    &&& kernel_shape_ok(k)
    &&& k.nonnegative()
    &&& k.normalized()
}

/// With non-negative weights, a weighted sum of samples lies between zero and
/// 255 times the sum of the weights.
pub proof fn lemma_window_bounds(
    src: Seq<u8>,
    width: int,
    height: int,
    channels: int,
    k: KernelModel,
    x: int,
    y: int,
    c: int,
    t: int,
)
    requires
        kernel_shape_ok(k),
        k.nonnegative(),
        0 <= t <= k.weights.len(),
    ensures
        0 <= window_sum(src, width, height, channels, k, x, y, c, t) <= 255 * weight_sum(k.weights.take(t)),
    decreases t,
{
    if t == 0 {
        assert(k.weights.take(0) =~= Seq::<int>::empty());
    } else {
        lemma_window_bounds(src, width, height, channels, k, x, y, c, t - 1);
        lemma_weight_sum_step(k.weights, t - 1);
        let v = tap(src, width, height, channels, k, x, y, c, t - 1);
        let wt = k.weights[t - 1];
        assert(0 <= wt * v <= 255 * wt) by (nonlinear_arith)
            requires 0 <= wt, 0 <= v <= 255;
    }
}

/// The output of a blur kernel is its exact weighted sum divided by its
/// scale: no clamping happens.
pub proof fn lemma_blur_output(
    src: Seq<u8>,
    width: int,
    height: int,
    channels: int,
    k: KernelModel,
    x: int,
    y: int,
    c: int,
)
    requires
        blur_kernel(k),
    ensures
        output_sample(src, width, height, channels, k, x, y, c) as int == window_sum(
            src,
            width,
            height,
            channels,
            k,
            x,
            y,
            c,
            k.weights.len() as int,
        ) / k.scale,
{
    let a = window_sum(src, width, height, channels, k, x, y, c, k.weights.len() as int);
    lemma_window_bounds(src, width, height, channels, k, x, y, c, k.weights.len() as int);
    assert(k.weights.take(k.weights.len() as int) =~= k.weights);
    assert(a / k.scale <= 255) by (nonlinear_arith)
        requires 0 <= a <= 255 * k.scale, k.scale >= 1;
    assert(0 <= a / k.scale) by (nonlinear_arith)
        requires 0 <= a, k.scale >= 1;
    if a <= 0 {
        assert(a / k.scale == 0);
    }
}

/// Cells `0..i * n + j` of the outer product sum to those of its first `i`
/// rows plus `col[i]` times the first `j` taps of the row pass at the row
/// that row `i` reads.
pub proof fn lemma_outer_block(
    src: Seq<u8>,
    width: int,
    height: int,
    channels: int,
    full: KernelModel,
    col: KernelModel,
    row: KernelModel,
    x: int,
    y: int,
    c: int,
    i: int,
    j: int,
)
    requires
        shape_ok(src.len() as int, width, height, channels),
        kernel_shape_ok(row),
        kernel_shape_ok(col),
        is_outer(full, col, row),
        0 <= x < width && 0 <= y < height && 0 <= c < channels,
        0 <= i < col.rows,
        0 <= j <= row.cols,
    ensures
        window_sum(src, width, height, channels, full, x, y, c, i * row.cols + j) == window_sum(
            src,
            width,
            height,
            channels,
            full,
            x,
            y,
            c,
            i * row.cols,
        ) + col.weights[i] * window_sum(
            src,
            width,
            height,
            channels,
            row,
            x,
            clamp_coord(y + i - col.rows as int / 2, height),
            c,
            j,
        ),
    decreases j,
{
    if j > 0 {
        lemma_outer_block(src, width, height, channels, full, col, row, x, y, c, i, j - 1);
        let n = row.cols as int;
        let m = col.rows as int;
        let u = i * n + j - 1;
        lemma_fundamental_div_mod_converse(u, n, i, j - 1);
        lemma_fundamental_div_mod_converse(j - 1, n, 0, j - 1);
        assert(0 <= u < m * n) by (nonlinear_arith)
            requires u == i * n + j - 1, 0 <= i < m, 1 <= j <= n;
        let yy = clamp_coord(y + i - m / 2, height);
        let v = tap(src, width, height, channels, row, x, yy, c, j - 1);
        assert(tap(src, width, height, channels, full, x, y, c, u) == v);
        assert(full.weights[u] == col.weights[i] * row.weights[j - 1]);
        let a = window_sum(src, width, height, channels, row, x, yy, c, j - 1);
        let ci = col.weights[i];
        let rj = row.weights[j - 1];
        assert(ci * a + (ci * rj) * v == ci * (a + rj * v)) by (nonlinear_arith);
    }
}

/// After the first `i` rows of the column kernel, the one-pass sum lies
/// between `s1` times the two-pass sum and that plus `(s1 - 1)` times the
/// column weights used so far, where `s1` is the row kernel's scale.
pub proof fn lemma_sandwich(
    src: Seq<u8>,
    width: int,
    height: int,
    channels: int,
    full: KernelModel,
    col: KernelModel,
    row: KernelModel,
    x: int,
    y: int,
    c: int,
    i: int,
)
    requires
        shape_ok(src.len() as int, width, height, channels),
        blur_kernel(row),
        blur_kernel(col),
        is_outer(full, col, row),
        0 <= x < width && 0 <= y < height && 0 <= c < channels,
        0 <= i <= col.rows,
    ensures
        ({
            let mid = convolution(src, width, height, channels, row);
            let b = window_sum(mid, width, height, channels, col, x, y, c, i);
            let t = window_sum(src, width, height, channels, full, x, y, c, i * row.cols);
            let s1 = row.scale;
            let cs = weight_sum(col.weights.take(i));
            &&& s1 * b <= t <= s1 * b + (s1 - 1) * cs
            &&& t <= 255 * s1 * cs
        }),
    decreases i,
{
    let mid = convolution(src, width, height, channels, row);
    let n = row.cols as int;
    let m = col.rows as int;
    let s1 = row.scale;
    if i == 0 {
        assert(col.weights.take(0) =~= Seq::<int>::empty());
        assert(i * n == 0);
    } else {
        lemma_sandwich(src, width, height, channels, full, col, row, x, y, c, i - 1);
        lemma_outer_block(src, width, height, channels, full, col, row, x, y, c, i - 1, n);
        assert((i - 1) * n + n == i * n) by (nonlinear_arith);
        let yy = clamp_coord(y + (i - 1) - m / 2, height);
        lemma_fundamental_div_mod_converse(i - 1, 1, i - 1, 0);
        lemma_index_in_bounds(width, height, channels, x, yy, c);
        lemma_index_decompose(width, channels, x, yy, c);
        let idx = sample_index(width, channels, x, yy, c);
        assert(tap(mid, width, height, channels, col, x, y, c, i - 1) == mid[idx] as int);
        assert(mid[idx] == output_sample(src, width, height, channels, row, x, yy, c));
        lemma_blur_output(src, width, height, channels, row, x, yy, c);
        lemma_window_bounds(src, width, height, channels, row, x, yy, c, n);
        assert(row.weights.take(n) =~= row.weights);
        let a = window_sum(src, width, height, channels, row, x, yy, c, n);
        let q = a / s1;
        lemma_fundamental_div_mod(a, s1);
        lemma_mod_pos_bound(a, s1);
        lemma_weight_sum_step(col.weights, i - 1);
        let ci = col.weights[i - 1];
        let b0 = window_sum(mid, width, height, channels, col, x, y, c, i - 1);
        let t0 = window_sum(src, width, height, channels, full, x, y, c, (i - 1) * n);
        let cs0 = weight_sum(col.weights.take(i - 1));
        assert(s1 * q <= a <= s1 * q + (s1 - 1));
        assert(ci * (s1 * q) <= ci * a <= ci * (s1 * q) + ci * (s1 - 1)) by (nonlinear_arith)
            requires 0 <= ci, s1 * q <= a <= s1 * q + (s1 - 1);
        assert(ci * a <= 255 * s1 * ci) by (nonlinear_arith)
            requires 0 <= ci, a <= 255 * s1;
        assert(s1 * (b0 + ci * q) == s1 * b0 + ci * (s1 * q)) by (nonlinear_arith);
        assert((s1 - 1) * (cs0 + ci) == (s1 - 1) * cs0 + ci * (s1 - 1)) by (nonlinear_arith);
        assert(255 * s1 * (cs0 + ci) == 255 * s1 * cs0 + 255 * s1 * ci) by (nonlinear_arith);
    }
}

/// Integer division after the sandwich: a one-pass quotient is the two-pass
/// quotient or one more.
pub proof fn lemma_rounding_gap(b: int, t: int, s1: int, s2: int)
    requires
        1 <= s1,
        1 <= s2,
        0 <= b,
        s1 * b <= t <= s1 * b + (s1 - 1) * s2,
    ensures
        b / s2 <= t / (s1 * s2) <= b / s2 + 1,
{
    let d = s1 * s2;
    assert(d >= 1) by (nonlinear_arith)
        requires s1 >= 1, s2 >= 1, d == s1 * s2;
    lemma_fundamental_div_mod(b, s2);
    lemma_mod_pos_bound(b, s2);
    lemma_fundamental_div_mod(t, d);
    lemma_mod_pos_bound(t, d);
    let qb = b / s2;
    let rb = b % s2;
    let qt = t / d;
    let rt = t % d;
    assert(s1 * b == d * qb + s1 * rb) by (nonlinear_arith)
        requires b == s2 * qb + rb, d == s1 * s2;
    assert(0 <= s1 * rb <= s1 * (s2 - 1)) by (nonlinear_arith)
        requires 0 <= rb < s2, s1 >= 1;
    assert(d * qb <= t);
    assert(d * qb < d * (qt + 1)) by (nonlinear_arith)
        requires d * qb <= t, t == d * qt + rt, rt < d;
    assert(qb <= qt) by (nonlinear_arith)
        requires d * qb < d * (qt + 1), d >= 1;
    assert(s1 * (s2 - 1) + (s1 - 1) * s2 < 2 * d) by (nonlinear_arith)
        requires d == s1 * s2, s1 >= 1, s2 >= 1;
    assert(t < d * qb + 2 * d);
    assert(d * qt < d * (qb + 2)) by (nonlinear_arith)
        requires d * qt <= t, t < d * qb + 2 * d;
    assert(qt <= qb + 1) by (nonlinear_arith)
        requires d * qt < d * (qb + 2), d >= 1;
}

/// A row pass followed by a column pass, against one pass with the outer
/// product of the two blur kernels (scaled by the product of their scales):
/// every sample of the one-pass result equals the two-pass one or exceeds it
/// by one, the rounding of the intermediate buffer.
pub proof fn lemma_separable_close(
    src: Seq<u8>,
    width: int,
    height: int,
    channels: int,
    full: KernelModel,
    col: KernelModel,
    row: KernelModel,
)
    requires
        shape_ok(src.len() as int, width, height, channels),
        blur_kernel(row),
        blur_kernel(col),
        is_outer(full, col, row),
        full.scale == row.scale * col.scale,
    ensures
        ({
            let two = convolution(convolution(src, width, height, channels, row), width, height, channels, col);
            let one = convolution(src, width, height, channels, full);
            forall|p: int| 0 <= p < src.len() ==> 0 <= #[trigger] one[p] - two[p] <= 1
        }),
{
    let mid = convolution(src, width, height, channels, row);
    let two = convolution(mid, width, height, channels, col);
    let one = convolution(src, width, height, channels, full);
    let s1 = row.scale;
    let s2 = col.scale;
    let m = col.rows as int;
    let n = row.cols as int;
    assert forall|p: int| 0 <= p < src.len() implies 0 <= #[trigger] one[p] - two[p] <= 1 by {
        lemma_decompose_bounds(p, width, height, channels);
        let x = (p / channels) % width;
        let y = (p / channels) / width;
        let c = p % channels;
        lemma_sandwich(src, width, height, channels, full, col, row, x, y, c, m);
        assert(col.weights.take(m) =~= col.weights);
        let b = window_sum(mid, width, height, channels, col, x, y, c, m);
        let t = window_sum(src, width, height, channels, full, x, y, c, m * n);
        lemma_blur_output(mid, width, height, channels, col, x, y, c);
        lemma_window_bounds(mid, width, height, channels, col, x, y, c, m);
        lemma_rounding_gap(b, t, s1, s2);
        let d = s1 * s2;
        assert(d >= 1) by (nonlinear_arith)
            requires s1 >= 1, s2 >= 1, d == s1 * s2;
        assert(0 <= t) by (nonlinear_arith)
            requires s1 * b <= t, s1 >= 1, b >= 0;
        assert(t / d <= 255) by (nonlinear_arith)
            requires 0 <= t <= 255 * s1 * s2, d == s1 * s2, d >= 1;
        if t <= 0 {
            assert(t / d == 0);
        }
        assert(one[p] as int == t / d);
    }
}

/// The sum of an outer product's weights is the product of the sums.
pub proof fn lemma_outer_sum(full: KernelModel, col: KernelModel, row: KernelModel, i: int, j: int)
    requires
        kernel_shape_ok(row),
        kernel_shape_ok(col),
        is_outer(full, col, row),
        0 <= i <= col.rows,
        0 <= j <= row.cols,
        i == col.rows ==> j == 0,
    ensures
        weight_sum(full.weights.take(i * row.cols + j)) == weight_sum(col.weights.take(i)) * weight_sum(
            row.weights,
        ) + (if i < col.rows {
            col.weights[i] * weight_sum(row.weights.take(j))
        } else {
            0
        }),
    decreases i, j,
{
    let n = row.cols as int;
    let m = col.rows as int;
    if j > 0 {
        lemma_outer_sum(full, col, row, i, j - 1);
        let u = i * n + j - 1;
        lemma_fundamental_div_mod_converse(u, n, i, j - 1);
        assert(0 <= u < m * n) by (nonlinear_arith)
            requires u == i * n + j - 1, 0 <= i < m, 1 <= j <= n;
        lemma_weight_sum_step(full.weights, u);
        lemma_weight_sum_step(row.weights, j - 1);
        let ci = col.weights[i];
        let a = weight_sum(row.weights.take(j - 1));
        let rj = row.weights[j - 1];
        assert(ci * a + ci * rj == ci * (a + rj)) by (nonlinear_arith);
    } else if i > 0 {
        lemma_outer_sum(full, col, row, i - 1, n);
        assert(row.weights.take(n) =~= row.weights);
        assert((i - 1) * n + n == i * n) by (nonlinear_arith);
        lemma_weight_sum_step(col.weights, i - 1);
        let cs = weight_sum(col.weights.take(i - 1));
        let ci = col.weights[i - 1];
        let rs = weight_sum(row.weights);
        assert(cs * rs + ci * rs == (cs + ci) * rs) by (nonlinear_arith);
        if i < m {
            assert(row.weights.take(0) =~= Seq::<int>::empty());
        }
    } else {
        assert(full.weights.take(0) =~= Seq::<int>::empty());
        assert(col.weights.take(0) =~= Seq::<int>::empty());
        assert(row.weights.take(0) =~= Seq::<int>::empty());
    }
}

/// Cell `u` of an `n` by `n` matrix lies in row `u / n` and column `u % n`,
/// both inside the matrix.
pub proof fn lemma_cell_bounds(u: int, n: int)
    requires
        1 <= n,
        0 <= u < n * n,
    ensures
        0 <= u / n < n,
        0 <= u % n < n,
{
    lemma_fundamental_div_mod(u, n);
    lemma_mod_pos_bound(u, n);
    assert(0 <= u / n < n) by (nonlinear_arith)
        requires u == n * (u / n) + u % n, 0 <= u % n < n, 0 <= u < n * n;
}

/// Separable and one-pass box blur of the same radius agree: each sample of
/// the one-pass result equals the two-pass one or exceeds it by one.
pub proof fn lemma_box_separable_close(src: Seq<u8>, width: int, height: int, channels: int, radius: nat)
    requires
        shape_ok(src.len() as int, width, height, channels),
    ensures
        ({
            let row = box_row(radius);
            let two = convolution(convolution(src, width, height, channels, row), width, height, channels, column_of(row));
            let one = convolution(src, width, height, channels, box_square(radius));
            forall|p: int| 0 <= p < src.len() ==> 0 <= #[trigger] one[p] - two[p] <= 1
        }),
{
    let row = box_row(radius);
    let col = column_of(row);
    let full = box_square(radius);
    let n = taps(radius as int);
    lemma_sum_of_ones(row.weights);
    assert forall|u: int| 0 <= u < full.weights.len() implies #[trigger] full.weights[u] == col.weights[u / n]
        * row.weights[u % n] by {
        lemma_cell_bounds(u, n);
        assert(full.weights[u] == 1);
        assert(col.weights[u / n] == 1);
        assert(row.weights[u % n] == 1);
    }
    lemma_separable_close(src, width, height, channels, full, col, row);
}

/// Separable and one-pass Gaussian blur with the same samples agree: each
/// sample of the one-pass result equals the two-pass one or exceeds it by
/// one.
pub proof fn lemma_gaussian_separable_close(src: Seq<u8>, width: int, height: int, channels: int, samples: Seq<u32>)
    requires
        shape_ok(src.len() as int, width, height, channels),
        valid_samples(samples),
    ensures
        ({
            let row = gaussian_row(samples);
            let two = convolution(convolution(src, width, height, channels, row), width, height, channels, column_of(row));
            let one = convolution(src, width, height, channels, gaussian_square(samples));
            forall|p: int| 0 <= p < src.len() ==> 0 <= #[trigger] one[p] - two[p] <= 1
        }),
{
    let row = gaussian_row(samples);
    let col = column_of(row);
    let full = gaussian_square(samples);
    let n = taps(samples.len() - 1);
    lemma_gaussian_shape(samples);
    assert forall|u: int| 0 <= u < full.weights.len() implies #[trigger] full.weights[u] == col.weights[u / n]
        * row.weights[u % n] by {
        lemma_cell_bounds(u, n);
        let r = samples.len() - 1;
        assert(full.weights[u] == (samples[distance(u / n, r)] as int) * (samples[distance(u % n, r)] as int));
        assert(col.weights[u / n] == samples[distance(u / n, r)] as int);
        assert(row.weights[u % n] == samples[distance(u % n, r)] as int);
    }
    lemma_outer_sum(full, col, row, n, 0);
    assert(full.weights.take(n * n) =~= full.weights);
    assert(col.weights.take(n) =~= col.weights);
    lemma_separable_close(src, width, height, channels, full, col, row);
}

} // verus!
