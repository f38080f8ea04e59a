//! The convolution engine: a kernel swept over a pixel buffer, with edge
//! replication at the borders and an exact accumulator per channel.
use vstd::prelude::*;
use vstd::arithmetic::div_mod::{lemma_fundamental_div_mod, lemma_fundamental_div_mod_converse, lemma_mod_pos_bound};
use crate::kernel::{Kernel, KernelModel};

verus! {

/// A pair of row-major 8-bit pixel buffers of one shape: the one a pass reads
/// and the one it writes.
#[derive(Debug, PartialEq, Default)]
pub struct Image {
    pub buf_read: Vec<u8>,
    pub buf_write: Vec<u8>,
    pub width: u32,
    pub height: u32,
    pub channels: usize,
}

/// A buffer of `len` samples holds `width * height` pixels of `channels`
/// samples each.
pub open spec fn shape_ok(len: int, width: int, height: int, channels: int) -> bool {
    &&& 0 <= width && 0 <= height && 1 <= channels
    &&& len == width * height * channels
}

impl Image {
    /// Both buffers have the declared shape.
    pub open spec fn wf(&self) -> bool {
        &&& shape_ok(self.buf_read@.len() as int, self.width as int, self.height as int, self.channels as int)
        &&& self.buf_write@.len() == self.buf_read@.len()
    }
}

/// `v` moved into `[0, n - 1]`: the nearest valid coordinate.
pub open spec fn clamp_coord(v: int, n: int) -> int {
    if v < 0 {
        0
    } else if v >= n {
        n - 1
    } else {
        v
    }
}

/// Position of channel `c` of pixel `(x, y)` in a row-major buffer.
pub open spec fn sample_index(width: int, channels: int, x: int, y: int, c: int) -> int {
    (y * width + x) * channels + c
}

/// The source sample that kernel cell `t` reads for channel `c` of output
/// pixel `(x, y)`, with both coordinates clamped to the image.
pub open spec fn tap(
    src: Seq<u8>,
    width: int,
    height: int,
    channels: int,
    k: KernelModel,
    x: int,
    y: int,
    c: int,
    t: int,
) -> int {
    let i = t / k.cols as int;
    let j = t % k.cols as int;
    let sx = clamp_coord(x + j - k.cols as int / 2, width);
    let sy = clamp_coord(y + i - k.rows as int / 2, height);
    src[sample_index(width, channels, sx, sy, c)] as int
}

/// The weighted sum over the first `t` kernel cells, as integer weights.
pub open spec fn window_sum(
    src: Seq<u8>,
    width: int,
    height: int,
    channels: int,
    k: KernelModel,
    x: int,
    y: int,
    c: int,
    t: int,
) -> int
    decreases t,
{
    if t <= 0 {
        0
    } else {
        window_sum(src, width, height, channels, k, x, y, c, t - 1) + k.weights[t - 1] * tap(
            src,
            width,
            height,
            channels,
            k,
            x,
            y,
            c,
            t - 1,
        )
    }
}

/// An accumulator `acc / scale` written back as a sample: clamped to
/// `[0, 255]` and truncated.
pub open spec fn to_sample(acc: int, scale: int) -> u8 {
    if acc <= 0 {
        0
    } else if acc / scale >= 255 {
        255
    } else {
        (acc / scale) as u8
    }
}

/// A running per-channel sum of integer weight times sample.
#[derive(Debug, Clone, Copy, PartialEq, Eq, Structural)]
pub struct Weight(pub i128);

impl Weight {
    /// Adds another sum to this one.
    pub fn add_assign(&mut self, other: Weight)
        requires
            i128::MIN <= old(self).0 + other.0 <= i128::MAX,
        ensures
            final(self).0 == old(self).0 + other.0,
    {
        self.0 = self.0 + other.0;
    }

    /// The sum, read over the kernel's `scale`, written back as a sample:
    /// clamped to `[0, 255]` and truncated.
    pub fn into_sample(self, scale: u128) -> (r: u8)
        requires
            1 <= scale,
        ensures
            r == to_sample(self.0 as int, scale as int),
    {
        if self.0 <= 0 {
            0
        } else {
            let q: u128 = (self.0 as u128) / scale;
            if q >= 255 {
                255
            } else {
                q as u8
            }
        }
    }
}

/// Channel `c` of output pixel `(x, y)`.
pub open spec fn output_sample(
    src: Seq<u8>,
    width: int,
    height: int,
    channels: int,
    k: KernelModel,
    x: int,
    y: int,
    c: int,
) -> u8 {
    to_sample(window_sum(src, width, height, channels, k, x, y, c, k.weights.len() as int), k.scale)
}

/// The whole buffer that convolving `src` with `k` produces.
pub open spec fn convolution(src: Seq<u8>, width: int, height: int, channels: int, k: KernelModel) -> Seq<u8> {
    Seq::new(
        src.len(),
        |p: int| output_sample(src, width, height, channels, k, (p / channels) % width, (p / channels) / width, p % channels),
    )
}

/// Channel `c` of pixel `(x, y)` lies inside the buffer.
pub proof fn lemma_index_in_bounds(width: int, height: int, channels: int, x: int, y: int, c: int)
    requires
        0 <= x < width,
        0 <= y < height,
        0 <= c < channels,
    ensures
        0 <= y * width <= y * width + x < width * height,
        0 <= (y * width + x) * channels <= sample_index(width, channels, x, y, c) < width * height * channels,
        width * height <= width * height * channels,
{
    assert(width * height <= width * height * channels) by (nonlinear_arith)
        requires 0 <= x < width, 0 <= y < height, 0 <= c < channels;
    assert(0 <= y * width + x < width * height) by (nonlinear_arith)
        requires 0 <= x < width, 0 <= y < height;
    let q = y * width + x;
    assert(0 <= q * channels <= q * channels + c < width * height * channels) by (nonlinear_arith)
        requires 0 <= q < width * height, 0 <= c < channels;
}

/// Position `p` of a buffer is channel `c` of pixel `(x, y)` exactly when
/// `p` is that sample's index.
pub proof fn lemma_index_decompose(width: int, channels: int, x: int, y: int, c: int)
    requires
        0 <= x < width,
        0 <= y,
        0 <= c < channels,
    ensures
        ({
            let p = sample_index(width, channels, x, y, c);
            &&& p % channels == c
            &&& (p / channels) % width == x
            &&& (p / channels) / width == y
        }),
{
    let p = sample_index(width, channels, x, y, c);
    lemma_fundamental_div_mod_converse(p, channels, y * width + x, c);
    assert(y * width + x == y * width + x);
    lemma_fundamental_div_mod_converse(y * width + x, width, y, x);
}

/// One output sample: the kernel's weighted sum around `(x, y)` in channel
/// `c`, clamped and truncated.
fn convolve_sample(
    src: &Vec<u8>,
    width: u32,
    height: u32,
    channels: usize,
    kernel: &Kernel,
    x: usize,
    y: usize,
    c: usize,
) -> (r: u8)
    requires
        shape_ok(src@.len() as int, width as int, height as int, channels as int),
        kernel.wf(),
        x < width,
        y < height,
        c < channels,
    ensures
        r == output_sample(src@, width as int, height as int, channels as int, kernel@, x as int, y as int, c as int),
{
    let ghost k = kernel@;
    let ghost (w, h, ch) = (width as int, height as int, channels as int);
    let cells = kernel.rows * kernel.cols;
    let len = src.len();
    let row_half: i64 = (kernel.rows / 2) as i64;
    let col_half: i64 = (kernel.cols / 2) as i64;
    let mut acc = Weight(0);
    let mut t: usize = 0;
    let mut i: usize = 0;
    let mut j: usize = 0;
    while t < cells
        invariant
            kernel.wf(),
            k == kernel@,
            w == width as int && h == height as int && ch == channels as int,
            shape_ok(src@.len() as int, w, h, ch),
            x < w && y < h && c < ch,
            cells == kernel.rows * kernel.cols,
            len == src@.len(),
            row_half == kernel.rows / 2,
            col_half == kernel.cols / 2,
            t <= cells,
            j < kernel.cols,
            t == i * kernel.cols + j,
            -(t as int) * 0x800000000000000000 <= acc.0 <= (t as int) * 0x800000000000000000,
            acc.0 == window_sum(src@, w, h, ch, k, x as int, y as int, c as int, t as int),
        decreases cells - t,
    {
        proof {
            lemma_fundamental_div_mod_converse(t as int, kernel.cols as int, i as int, j as int);
        }
        let mut sx: i64 = x as i64 + j as i64 - col_half;
        if sx < 0 {
            sx = 0;
        } else if sx >= width as i64 {
            sx = width as i64 - 1;
        }
        let mut sy: i64 = y as i64 + i as i64 - row_half;
        if sy < 0 {
            sy = 0;
        } else if sy >= height as i64 {
            sy = height as i64 - 1;
        }
        proof {
            lemma_index_in_bounds(w, h, ch, sx as int, sy as int, c as int);
        }
        let idx = (sy as usize * width as usize + sx as usize) * channels + c;
        assert(i < kernel.rows) by (nonlinear_arith)
            requires t < kernel.rows * kernel.cols, t == i * kernel.cols + j, j < kernel.cols;
        let weight = kernel.weights.get(i, j);
        let sample = src[idx];
        assert(tap(src@, w, h, ch, k, x as int, y as int, c as int, t as int) == sample as int);
        assert(-0x8000000000000000 * 255 <= weight as int * sample as int <= 0x8000000000000000 * 255)
            by (nonlinear_arith)
            requires -0x8000000000000000 <= weight as int <= 0x7fffffffffffffff, 0 <= sample as int <= 255;
        acc.add_assign(Weight((weight as i128) * (sample as i128)));
        t = t + 1;
        j = j + 1;
        if j == kernel.cols {
            assert((i + 1) * kernel.cols == i * kernel.cols + kernel.cols) by (nonlinear_arith);
            j = 0;
            i = i + 1;
        }
    }
    acc.into_sample(kernel.scale)
}

/// Row `y` of the convolution of `src` with `kernel`: `width * channels`
/// samples. Rows depend on the source alone, so they may be computed in any
/// order or side by side.
pub fn convolve_row(src: &Vec<u8>, width: u32, height: u32, channels: usize, kernel: &Kernel, y: u32) -> (r: Vec<u8>)
    requires
        shape_ok(src@.len() as int, width as int, height as int, channels as int),
        kernel.wf(),
        y < height,
    ensures
        r@.len() == width * channels,
        forall|q: int|
            0 <= q < width * channels ==> r@[q] == #[trigger] convolution(
                src@,
                width as int,
                height as int,
                channels as int,
                kernel@,
            )[y * width * channels + q],
{
    let ghost (w, h, ch) = (width as int, height as int, channels as int);
    let ghost conv = convolution(src@, w, h, ch, kernel@);
    let mut r: Vec<u8> = Vec::new();
    let mut x: usize = 0;
    while x < width as usize
        invariant
            kernel.wf(),
            w == width as int && h == height as int && ch == channels as int,
            conv == convolution(src@, w, h, ch, kernel@),
            shape_ok(src@.len() as int, w, h, ch),
            y < h,
            x <= w,
            r@.len() == x * ch,
            forall|q: int|
                0 <= q < x * ch ==> r@[q] == output_sample(src@, w, h, ch, kernel@, q / ch, y as int, q % ch),
        decreases w - x,
    {
        let mut c: usize = 0;
        while c < channels
            invariant
                kernel.wf(),
                w == width as int && h == height as int && ch == channels as int,
                shape_ok(src@.len() as int, w, h, ch),
                y < h,
                x < w,
                c <= ch,
                r@.len() == x * ch + c,
                forall|q: int|
                    0 <= q < x * ch + c ==> r@[q] == output_sample(src@, w, h, ch, kernel@, q / ch, y as int, q % ch),
            decreases ch - c,
        {
            let v = convolve_sample(src, width, height, channels, kernel, x, y as usize, c);
            proof {
                lemma_fundamental_div_mod_converse(x * ch + c, ch, x as int, c as int);
            }
            r.push(v);
            c = c + 1;
        }
        assert((x + 1) * ch == x * ch + ch) by (nonlinear_arith);
        x = x + 1;
    }
    assert forall|q: int| 0 <= q < w * ch implies r@[q] == #[trigger] conv[y * w * ch + q] by {
        let x = q / ch;
        let c = q % ch;
        lemma_fundamental_div_mod(q, ch);
        lemma_mod_pos_bound(q, ch);
        assert(0 <= x < w) by (nonlinear_arith)
            requires 0 <= q < w * ch, q == ch * x + c, 0 <= c < ch;
        assert(y * w * ch + q == sample_index(w, ch, x, y as int, c)) by (nonlinear_arith)
            requires q == ch * x + c;
        lemma_index_in_bounds(w, h, ch, x, y as int, c);
        lemma_index_decompose(w, ch, x, y as int, c);
    }
    r
}

/// Convolves `src` with `kernel` into `dst`: every sample of `dst` becomes
/// the kernel's weighted sum around it, read with edge replication, clamped
/// to `[0, 255]` and truncated. `src` is only read.
pub fn convolve_into(src: &Vec<u8>, dst: &mut Vec<u8>, width: u32, height: u32, channels: usize, kernel: &Kernel)
    requires
        shape_ok(src@.len() as int, width as int, height as int, channels as int),
        old(dst)@.len() == src@.len(),
        kernel.wf(),
    ensures
        final(dst)@ == convolution(src@, width as int, height as int, channels as int, kernel@),
{
    let ghost (w, h, ch) = (width as int, height as int, channels as int);
    let ghost conv = convolution(src@, w, h, ch, kernel@);
    let total = src.len();
    if height == 0 {
        assert(w * h * ch == 0) by (nonlinear_arith)
            requires h == 0;
        assert(dst@ =~= conv);
        return;
    }
    proof {
        assert(w * ch <= w * h * ch) by (nonlinear_arith)
            requires w >= 0, h >= 1, ch >= 1;
    }
    let row_len: usize = width as usize * channels;
    let mut y: u32 = 0;
    let mut base: usize = 0;
    proof {
        assert(w * h * ch == (w * ch) * h) by (nonlinear_arith);
        assert(w * ch >= 0 && h >= 0 && (w * ch) * h >= 0) by (nonlinear_arith)
            requires w >= 0, ch >= 1, h >= 0;
        if h > 0 {
            assert(w * ch <= (w * ch) * h) by (nonlinear_arith)
                requires w * ch >= 0, h >= 1;
        }
    }
    while y < height
        invariant
            kernel.wf(),
            w == width as int && h == height as int && ch == channels as int,
            conv == convolution(src@, w, h, ch, kernel@),
            shape_ok(src@.len() as int, w, h, ch),
            row_len == w * ch,
            src@.len() == (w * ch) * h,
            dst@.len() == src@.len(),
            total == src@.len(),
            y <= h,
            base == y * (w * ch),
            forall|p: int| 0 <= p < base ==> dst@[p] == conv[p],
        decreases h - y,
    {
        let row = convolve_row(src, width, height, channels, kernel, y);
        assert(base + row_len <= src@.len()) by (nonlinear_arith)
            requires base == y * (w * ch), y < h, src@.len() == (w * ch) * h, row_len == w * ch, w * ch >= 0;
        let mut q: usize = 0;
        while q < row_len
            invariant
                w == width as int && h == height as int && ch == channels as int,
                conv == convolution(src@, w, h, ch, kernel@),
                row_len == w * ch,
                row@.len() == row_len,
                base + row_len <= dst@.len(),
                dst@.len() == src@.len(),
                total == src@.len(),
                base == y * (w * ch),
                q <= row_len,
                forall|r: int| 0 <= r < row_len ==> row@[r] == #[trigger] conv[y * w * ch + r],
                forall|p: int| 0 <= p < base + q ==> dst@[p] == conv[p],
            decreases row_len - q,
        {
            assert(y * w * ch + q == base + q) by (nonlinear_arith)
                requires base == y * (w * ch);
            dst.set(base + q, row[q]);
            q = q + 1;
        }
        assert((y + 1) * (w * ch) == base + row_len) by (nonlinear_arith)
            requires base == y * (w * ch), row_len == w * ch;
        base = base + row_len;
        y = y + 1;
    }
    assert(base == src@.len()) by (nonlinear_arith)
        requires base == y * (w * ch), y == h, src@.len() == (w * ch) * h;
    assert(dst@ =~= conv);
}

/// One pass over an image: convolves its read buffer into its write buffer.
pub fn convolve(img: &mut Image, kernel: &Kernel)
    requires
        old(img).wf(),
        kernel.wf(),
    ensures
        final(img).wf(),
        final(img).buf_read == old(img).buf_read,
        final(img).width == old(img).width,
        final(img).height == old(img).height,
        final(img).channels == old(img).channels,
        final(img).buf_write@ == convolution(
            old(img).buf_read@,
            old(img).width as int,
            old(img).height as int,
            old(img).channels as int,
            kernel@,
        ),
{
    convolve_into(&img.buf_read, &mut img.buf_write, img.width, img.height, img.channels, kernel);
}

} // verus!
