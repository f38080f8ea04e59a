//! Properties of the filters that relate several calls or hold for every
//! input.
use vstd::prelude::*;
use vstd::arithmetic::div_mod::{
    lemma_div_by_multiple, lemma_fundamental_div_mod, lemma_mod_pos_bound,
};
use crate::engine::{
    clamp_coord, convolution, lemma_index_decompose, lemma_index_in_bounds, sample_index, shape_ok,
    window_sum,
};
use crate::kernel::{
    box_row, box_square, column_of, gaussian_row, gaussian_square, lemma_sum_of_ones,
    lemma_gaussian_shape, lemma_weight_sum_step, taps, valid_samples, weight_sum, KernelModel,
};

verus! {

/// The shape facts that the engine's spec functions rely on.
pub open spec fn kernel_shape_ok(k: KernelModel) -> bool {
    &&& 1 <= k.rows
    &&& 1 <= k.cols
    &&& k.weights.len() == k.rows * k.cols
    &&& 1 <= k.scale
}

/// Every pixel of `buf` has the same color as the first one.
pub open spec fn uniform(buf: Seq<u8>, channels: int) -> bool {
    forall|p: int| 0 <= p < buf.len() ==> #[trigger] buf[p] == buf[p % channels]
}

/// Position `p` of a buffer is a sample of a pixel inside the image.
pub proof fn lemma_decompose_bounds(p: int, width: int, height: int, channels: int)
    requires
        shape_ok(width * height * channels, width, height, channels),
        0 <= p < width * height * channels,
    ensures
        0 <= p % channels < channels,
        0 <= (p / channels) % width < width,
        0 <= (p / channels) / width < height,
        p == sample_index(width, channels, (p / channels) % width, (p / channels) / width, p % channels),
{
    let q = p / channels;
    lemma_fundamental_div_mod(p, channels);
    lemma_mod_pos_bound(p, channels);
    assert(0 <= q < width * height) by (nonlinear_arith)
        requires p == channels * q + p % channels, 0 <= p % channels < channels, 0 <= p < width * height * channels, channels >= 1;
    assert(width >= 1) by (nonlinear_arith)
        requires 0 <= q < width * height, height >= 0;
    lemma_fundamental_div_mod(q, width);
    lemma_mod_pos_bound(q, width);
    assert(0 <= q / width < height) by (nonlinear_arith)
        requires q == width * (q / width) + q % width, 0 <= q % width < width, 0 <= q < width * height, width >= 1;
    assert(p == sample_index(width, channels, q % width, q / width, p % channels)) by (nonlinear_arith)
        requires q == width * (q / width) + q % width, p == channels * q + p % channels;
}

/// Over a uniform buffer, the weighted sum of the first `t` cells is the
/// pixel's color times the sum of those weights.
pub proof fn lemma_uniform_window(
    src: Seq<u8>,
    width: int,
    height: int,
    channels: int,
    k: KernelModel,
    x: int,
    y: int,
    c: int,
    t: int,
)
    requires
        shape_ok(src.len() as int, width, height, channels),
        uniform(src, channels),
        kernel_shape_ok(k),
        0 <= x < width && 0 <= y < height && 0 <= c < channels,
        0 <= t <= k.weights.len(),
    ensures
        window_sum(src, width, height, channels, k, x, y, c, t) == src[c] as int * weight_sum(k.weights.take(t)),
    decreases t,
{
    if t == 0 {
        assert(k.weights.take(0) =~= Seq::<int>::empty());
    } else {
        lemma_uniform_window(src, width, height, channels, k, x, y, c, t - 1);
        lemma_weight_sum_step(k.weights, t - 1);
        let i = (t - 1) / k.cols as int;
        let j = (t - 1) % k.cols as int;
        let sx = clamp_coord(x + j - k.cols as int / 2, width);
        let sy = clamp_coord(y + i - k.rows as int / 2, height);
        lemma_index_in_bounds(width, height, channels, sx, sy, c);
        lemma_index_decompose(width, channels, sx, sy, c);
        let v = src[c] as int;
        let a = weight_sum(k.weights.take(t - 1));
        let b = k.weights[t - 1];
        assert(v * a + b * v == v * (a + b)) by (nonlinear_arith);
    }
}

/// Convolving a uniform buffer with a normalized kernel gives the buffer
/// back: every pixel keeps its color.
pub proof fn lemma_uniform_fixed_point(src: Seq<u8>, width: int, height: int, channels: int, k: KernelModel)
    requires
        shape_ok(src.len() as int, width, height, channels),
        uniform(src, channels),
        kernel_shape_ok(k),
        k.normalized(),
    ensures
        convolution(src, width, height, channels, k) == src,
{
    let out = convolution(src, width, height, channels, k);
    assert forall|p: int| 0 <= p < src.len() implies #[trigger] out[p] == src[p] by {
        lemma_decompose_bounds(p, width, height, channels);
        let c = p % channels;
        lemma_uniform_window(src, width, height, channels, k, (p / channels) % width, (p / channels) / width, c, k.weights.len() as int);
        assert(k.weights.take(k.weights.len() as int) =~= k.weights);
        let v = src[c] as int;
        lemma_div_by_multiple(v, k.scale);
    }
    assert(out =~= src);
}

/// The box and Gaussian blur kernels all leave a uniform buffer unchanged.
pub proof fn lemma_blur_kernels_keep_uniform(
    src: Seq<u8>,
    width: int,
    height: int,
    channels: int,
    radius: nat,
    samples: Seq<u32>,
)
    requires
        shape_ok(src.len() as int, width, height, channels),
        uniform(src, channels),
        valid_samples(samples),
    ensures
        convolution(src, width, height, channels, box_row(radius)) == src,
        convolution(src, width, height, channels, column_of(box_row(radius))) == src,
        convolution(src, width, height, channels, box_square(radius)) == src,
        convolution(src, width, height, channels, gaussian_row(samples)) == src,
        convolution(src, width, height, channels, column_of(gaussian_row(samples))) == src,
        convolution(src, width, height, channels, gaussian_square(samples)) == src,
{
    let n = taps(radius as int);
    lemma_sum_of_ones(box_row(radius).weights);
    lemma_sum_of_ones(box_square(radius).weights);
    assert(n * n >= 1) by (nonlinear_arith)
        requires n >= 1;
    lemma_uniform_fixed_point(src, width, height, channels, box_row(radius));
    lemma_uniform_fixed_point(src, width, height, channels, column_of(box_row(radius)));
    lemma_uniform_fixed_point(src, width, height, channels, box_square(radius));
    lemma_gaussian_shape(samples);
    let r = samples.len() - 1;
    let m = taps(r);
    assert(m * m >= 1) by (nonlinear_arith)
        requires m >= 1;
    lemma_uniform_fixed_point(src, width, height, channels, gaussian_row(samples));
    lemma_uniform_fixed_point(src, width, height, channels, column_of(gaussian_row(samples)));
    lemma_uniform_fixed_point(src, width, height, channels, gaussian_square(samples));
}

} // verus!
