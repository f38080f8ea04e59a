//! Kernel synthesis: box, Gaussian and Sobel weight matrices.
//!
//! A kernel holds integer weights over one shared positive `scale`: the weight
//! of a cell is `weights[cell] / scale`, exactly. Blur kernels are normalized,
//! so their integer weights sum to `scale` and the rational weights sum to one.
use vstd::prelude::*;
use vstd::arithmetic::div_mod::lemma_fundamental_div_mod_converse;
use crate::matrix::{matrix_cells, matrix_dims, WeightMatrix};

verus! {

/// Largest radius the factory builds: a square kernel of this radius has
/// fewer than `MAX_CELLS` cells.
pub const MAX_RADIUS: usize = 32767;

/// Largest number of cells of a kernel: that of a square one of the
/// largest radius.
pub const MAX_CELLS: usize = 4294836225;

/// The fixed-point value that stands for a Gaussian sample of exactly one.
pub const SAMPLE_ONE: u32 = 2147483648;

/// The mathematical content of a kernel: a `rows` by `cols` matrix stored
/// row-major, each weight standing for `weights[cell] / scale`.
pub struct KernelModel {
    pub rows: nat,
    pub cols: nat,
    pub weights: Seq<int>,
    pub scale: int,
}

/// A matrix of rational weights with one shared denominator.
pub struct Kernel {
    pub rows: usize,
    pub cols: usize,
    pub weights: WeightMatrix,
    pub scale: u128,
}

/// Why a kernel could not be built.
#[derive(Debug, Clone, Copy, PartialEq, Eq, Structural)]
pub enum KernelError {
    /// The Gaussian samples are empty, too many, above `SAMPLE_ONE`, or have
    /// a zero center.
    InvalidSamples,
}

impl View for Kernel {
    type V = KernelModel;

    open spec fn view(&self) -> KernelModel {
        KernelModel {
            rows: self.rows as nat,
            cols: self.cols as nat,
            weights: Seq::new(matrix_cells(self.weights).len(), |t: int| matrix_cells(self.weights)[t] as int),
            scale: self.scale as int,
        }
    }
}

impl Kernel {
    /// Shape and scale are consistent, and the kernel is small enough for an
    /// exact 128-bit accumulator.
    pub open spec fn wf(&self) -> bool {
        &&& 1 <= self.rows
        &&& 1 <= self.cols
        &&& matrix_dims(self.weights).0 == self.rows
        &&& matrix_dims(self.weights).1 == self.cols
        &&& self.rows * self.cols == matrix_cells(self.weights).len()
        &&& self.rows * self.cols <= MAX_CELLS
        &&& 1 <= self.scale
    }

    /// The integer weight in row `i`, column `j`; it stands for that weight
    /// divided by `scale`.
    pub fn weight(&self, i: usize, j: usize) -> (r: i64)
        requires
            self.wf(),
            i < self.rows,
            j < self.cols,
        ensures
            r as int == self@.at(i as int, j as int),
    {
        assert(i * self.cols + j < self.rows * self.cols) by (nonlinear_arith)
            requires i < self.rows, j < self.cols;
        self.weights.get(i, j)
    }
}

/// Sum of a sequence of weights.
pub open spec fn weight_sum(w: Seq<int>) -> int
    decreases w.len(),
{
    if w.len() == 0 {
        0
    } else {
        weight_sum(w.drop_last()) + w.last()
    }
}

impl KernelModel {
    /// The rational weights sum to one.
    pub open spec fn normalized(self) -> bool {
        weight_sum(self.weights) == self.scale
    }

    /// Every weight is non-negative.
    pub open spec fn nonnegative(self) -> bool {
        forall|t: int| 0 <= t < self.weights.len() ==> 0 <= #[trigger] self.weights[t]
    }

    /// The weight in row `i`, column `j`.
    pub open spec fn at(self, i: int, j: int) -> int {
        self.weights[i * self.cols + j]
    }
}

/// The number of taps of a window of radius `radius`: `2 * radius + 1`.
pub open spec fn taps(radius: int) -> int {
    2 * radius + 1
}

/// The one-row box kernel: `2 * radius + 1` taps, each weighing
/// `1 / (2 * radius + 1)`.
pub open spec fn box_row(radius: nat) -> KernelModel {
    KernelModel {
        rows: 1,
        cols: taps(radius as int) as nat,
        weights: Seq::new(taps(radius as int) as nat, |t: int| 1),
        scale: taps(radius as int),
    }
}

/// The one-column kernel with the weights of a one-row kernel.
pub open spec fn column_of(row: KernelModel) -> KernelModel {
    KernelModel { rows: row.cols, cols: 1, weights: row.weights, scale: row.scale }
}

/// The square box kernel: `(2 * radius + 1)^2` cells, each weighing
/// `1 / (2 * radius + 1)^2`.
pub open spec fn box_square(radius: nat) -> KernelModel {
    KernelModel {
        rows: taps(radius as int) as nat,
        cols: taps(radius as int) as nat,
        weights: Seq::new((taps(radius as int) * taps(radius as int)) as nat, |t: int| 1),
        scale: taps(radius as int) * taps(radius as int),
    }
}

/// Sum of a sequence of ones is its length.
pub proof fn lemma_sum_of_ones(w: Seq<int>)
    requires
        forall|t: int| 0 <= t < w.len() ==> w[t] == 1,
    ensures
        weight_sum(w) == w.len(),
    decreases w.len(),
{
    if w.len() > 0 {
        lemma_sum_of_ones(w.drop_last());
    }
}

/// A vector of `n` copies of `value`.
fn filled(n: usize, value: i64) -> (r: Vec<i64>)
    ensures
        r@.len() == n,
        forall|t: int| 0 <= t < n ==> r@[t] == value,
{
    let mut r: Vec<i64> = Vec::with_capacity(n);
    let mut t: usize = 0;
    while t < n
        invariant
            t <= n,
            r@.len() == t,
            forall|u: int| 0 <= u < t ==> r@[u] == value,
        decreases n - t,
    {
        r.push(value);
        t = t + 1;
    }
    r
}

/// The normalized box kernels of one row and of one column, each with
/// `2 * radius + 1` weights of `1 / (2 * radius + 1)`.
pub fn box_blur_kernel_1d(radius: usize) -> (r: (Kernel, Kernel))
    requires
        radius <= MAX_RADIUS,
    ensures
        r.0.wf(),
        r.1.wf(),
        r.0@ == box_row(radius as nat),
        r.1@ == column_of(box_row(radius as nat)),
        r.0@.normalized(),
        r.1@.normalized(),
{
    let n: usize = 2 * radius + 1;
    let row = Kernel { rows: 1, cols: n, weights: WeightMatrix::new(1, n, filled(n, 1)), scale: n as u128 };
    let col = Kernel { rows: n, cols: 1, weights: WeightMatrix::new(n, 1, filled(n, 1)), scale: n as u128 };
    proof {
        assert(row@.weights =~= box_row(radius as nat).weights);
        assert(col@.weights =~= box_row(radius as nat).weights);
        lemma_sum_of_ones(row@.weights);
    }
    (row, col)
}

/// The normalized square box kernel: `(2 * radius + 1)^2` weights, each of
/// `1 / (2 * radius + 1)^2`.
pub fn box_blur_kernel_2d(radius: usize) -> (r: Kernel)
    requires
        radius <= MAX_RADIUS,
    ensures
        r.wf(),
        r@ == box_square(radius as nat),
        r@.normalized(),
{
    let n: usize = 2 * radius + 1;
    assert(1 <= n * n <= MAX_CELLS) by (nonlinear_arith)
        requires 1 <= n <= 2 * MAX_RADIUS + 1;
    let k = Kernel { rows: n, cols: n, weights: WeightMatrix::new(n, n, filled(n * n, 1)), scale: (n * n) as u128 };
    proof {
        assert(k@.weights =~= box_square(radius as nat).weights);
        lemma_sum_of_ones(k@.weights);
    }
    k
}

/// The sum of one more element of a sequence.
pub proof fn lemma_weight_sum_step(w: Seq<int>, t: int)
    requires
        0 <= t < w.len(),
    ensures
        weight_sum(w.take(t + 1)) == weight_sum(w.take(t)) + w[t],
{
    assert(w.take(t + 1).drop_last() =~= w.take(t));
}

/// Gaussian samples as the factory takes them: `s[d]` is the fixed-point
/// value (`SAMPLE_ONE` for one) of the bell curve at distance `d` from the
/// center, for `d` in `0..=radius`. The center sample is positive.
pub open spec fn valid_samples(s: Seq<u32>) -> bool {
    &&& 1 <= s.len() <= MAX_RADIUS + 1
    &&& 0 < s[0]
    &&& forall|d: int| 0 <= d < s.len() ==> #[trigger] s[d] <= SAMPLE_ONE
}

/// Distance of tap `t` of a window of radius `radius` from its center.
pub open spec fn distance(t: int, radius: int) -> int {
    if t < radius {
        radius - t
    } else {
        t - radius
    }
}

/// The taps of the Gaussian row: sample `|t - radius|` at tap `t`.
pub open spec fn gaussian_taps(s: Seq<u32>) -> Seq<int> {
    Seq::new(taps(s.len() - 1) as nat, |t: int| s[distance(t, s.len() - 1)] as int)
}

/// The 1 by `2 * radius + 1` Gaussian kernel, normalized by the sum of its
/// taps.
pub open spec fn gaussian_row(s: Seq<u32>) -> KernelModel {
    KernelModel {
        rows: 1,
        cols: taps(s.len() - 1) as nat,
        weights: gaussian_taps(s),
        scale: weight_sum(gaussian_taps(s)),
    }
}

/// The cells of the square Gaussian: cell `(i, j)` weighs the product of the
/// samples at distances `|i - radius|` and `|j - radius|`, the bell curve at
/// that point.
pub open spec fn gaussian_cells(s: Seq<u32>) -> Seq<int> {
    let n = taps(s.len() - 1);
    Seq::new((n * n) as nat, |t: int| (s[distance(t / n, s.len() - 1)] as int) * (s[distance(t % n, s.len() - 1)] as int))
}

/// The square Gaussian kernel, normalized by the sum of all its cells.
pub open spec fn gaussian_square(s: Seq<u32>) -> KernelModel {
    KernelModel {
        rows: taps(s.len() - 1) as nat,
        cols: taps(s.len() - 1) as nat,
        weights: gaussian_cells(s),
        scale: weight_sum(gaussian_cells(s)),
    }
}

/// Whether `samples` can make a Gaussian kernel.
fn check_samples(samples: &Vec<u32>) -> (r: bool)
    ensures
        r == valid_samples(samples@),
{
    let n = samples.len();
    if n == 0 || n > MAX_RADIUS + 1 || samples[0] == 0 {
        return false;
    }
    let mut d: usize = 0;
    while d < n
        invariant
            n == samples@.len(),
            d <= n,
            forall|e: int| 0 <= e < d ==> #[trigger] samples@[e] <= SAMPLE_ONE,
        decreases n - d,
    {
        if samples[d] > SAMPLE_ONE {
            return false;
        }
        d = d + 1;
    }
    true
}

/// The taps of the Gaussian row of `samples` and their sum.
fn gaussian_taps_vec(samples: &Vec<u32>) -> (r: (Vec<i64>, u128))
    requires
        valid_samples(samples@),
    ensures
        r.0@.len() == taps(samples@.len() - 1),
        forall|t: int| 0 <= t < r.0@.len() ==> r.0@[t] as int == gaussian_taps(samples@)[t],
        r.1 == weight_sum(gaussian_taps(samples@)),
{
    let ghost g = gaussian_taps(samples@);
    let radius: usize = samples.len() - 1;
    let n: usize = 2 * radius + 1;
    let mut weights: Vec<i64> = Vec::with_capacity(n);
    let mut scale: u128 = 0;
    let mut t: usize = 0;
    while t < n
        invariant
            valid_samples(samples@),
            g == gaussian_taps(samples@),
            radius == samples@.len() - 1,
            n == taps(radius as int),
            t <= n,
            weights@.len() == t,
            forall|u: int| 0 <= u < t ==> weights@[u] as int == g[u],
            scale == weight_sum(g.take(t as int)),
            scale <= t * (SAMPLE_ONE as int),
        decreases n - t,
    {
        let d: usize = if t < radius { radius - t } else { t - radius };
        let v = samples[d];
        proof {
            lemma_weight_sum_step(g, t as int);
        }
        weights.push(v as i64);
        scale = scale + v as u128;
        t = t + 1;
    }
    assert(g.take(n as int) =~= g);
    (weights, scale)
}

/// The normalized one-row Gaussian kernel of radius `samples.len() - 1`.
/// Fails when the samples are not valid.
pub fn gaussian_kernel_1d(samples: &Vec<u32>) -> (r: Result<Kernel, KernelError>)
    ensures
        r is Err <==> !valid_samples(samples@),
        r is Err ==> r == Err::<Kernel, KernelError>(KernelError::InvalidSamples),
        r matches Ok(k) ==> k.wf() && k@ == gaussian_row(samples@) && k@.normalized(),
{
    if !check_samples(samples) {
        return Err(KernelError::InvalidSamples);
    }
    let (weights, scale) = gaussian_taps_vec(samples);
    let n = weights.len();
    let k = Kernel { rows: 1, cols: n, weights: WeightMatrix::new(1, n, weights), scale };
    proof {
        assert(k@.weights =~= gaussian_taps(samples@));
        lemma_gaussian_shape(samples@);
    }
    Ok(k)
}

/// The Gaussian kernels have non-negative weights and a positive scale.
pub proof fn lemma_gaussian_shape(s: Seq<u32>)
    requires
        valid_samples(s),
    ensures
        gaussian_row(s).nonnegative(),
        gaussian_square(s).nonnegative(),
        1 <= gaussian_row(s).scale,
        1 <= gaussian_square(s).scale,
{
    let radius = s.len() - 1;
    let n = taps(radius);
    let g = gaussian_taps(s);
    assert(g[radius] == s[0] as int);
    lemma_nonneg_sum_bound(g, radius);
    let cells = gaussian_cells(s);
    let center = radius * n + radius;
    assert(center < n * n) by (nonlinear_arith)
        requires n == 2 * radius + 1, center == radius * n + radius, radius >= 0;
    lemma_fundamental_div_mod_converse(center, n, radius, radius);
    assert(cells[center] == s[0] as int * s[0] as int);
    assert(0 < s[0] as int * s[0] as int) by (nonlinear_arith)
        requires 0 < s[0];
    assert forall|u: int| 0 <= u < cells.len() implies 0 <= #[trigger] cells[u] by {
        let x = s[distance(u / n, radius)] as int;
        let y = s[distance(u % n, radius)] as int;
        assert(0 <= x * y) by (nonlinear_arith)
            requires 0 <= x, 0 <= y;
    }
    lemma_nonneg_sum_bound(cells, center);
}

/// The Gaussian kernels are symmetric: the row reads the same backwards, and
/// the square is its own transpose.
pub proof fn lemma_gaussian_symmetric(s: Seq<u32>)
    requires
        valid_samples(s),
    ensures
        forall|t: int|
            0 <= t < gaussian_row(s).cols ==> #[trigger] gaussian_row(s).weights[t]
                == gaussian_row(s).weights[gaussian_row(s).cols - 1 - t],
        forall|i: int, j: int|
            0 <= i < gaussian_square(s).rows && 0 <= j < gaussian_square(s).cols ==> #[trigger] gaussian_square(s).at(i, j)
                == gaussian_square(s).at(j, i),
{
    let radius = s.len() - 1;
    let n = taps(radius);
    assert forall|i: int, j: int| 0 <= i < n && 0 <= j < n implies #[trigger] gaussian_square(s).at(i, j)
        == gaussian_square(s).at(j, i) by {
        lemma_fundamental_div_mod_converse(i * n + j, n, i, j);
        lemma_fundamental_div_mod_converse(j * n + i, n, j, i);
        assert(0 <= i * n + j < n * n && 0 <= j * n + i < n * n) by (nonlinear_arith)
            requires 0 <= i < n, 0 <= j < n;
        let a = s[distance(i, radius)] as int;
        let b = s[distance(j, radius)] as int;
        assert(a * b == b * a) by (nonlinear_arith);
    }
}

/// A sum of non-negative terms is at least each of its terms.
pub proof fn lemma_nonneg_sum_bound(w: Seq<int>, t: int)
    requires
        0 <= t < w.len(),
        forall|u: int| 0 <= u < w.len() ==> 0 <= #[trigger] w[u],
    ensures
        w[t] <= weight_sum(w),
    decreases w.len(),
{
    lemma_nonneg_sum(w.drop_last());
    if t < w.len() - 1 {
        lemma_nonneg_sum_bound(w.drop_last(), t);
    }
}

/// A sum of non-negative terms is non-negative.
pub proof fn lemma_nonneg_sum(w: Seq<int>)
    requires
        forall|u: int| 0 <= u < w.len() ==> 0 <= #[trigger] w[u],
    ensures
        0 <= weight_sum(w),
    decreases w.len(),
{
    if w.len() > 0 {
        lemma_nonneg_sum(w.drop_last());
    }
}

/// The normalized Gaussian kernels of one row and of one column. Fails when
/// the samples are not valid.
pub fn gaussian_blur_kernel_1d(samples: &Vec<u32>) -> (r: Result<(Kernel, Kernel), KernelError>)
    ensures
        r is Err <==> !valid_samples(samples@),
        r is Err ==> r == Err::<(Kernel, Kernel), KernelError>(KernelError::InvalidSamples),
        r matches Ok(p) ==> {
            &&& p.0.wf() && p.1.wf()
            &&& p.0@ == gaussian_row(samples@)
            &&& p.1@ == column_of(gaussian_row(samples@))
            &&& p.0@.normalized() && p.1@.normalized()
        },
{
    if !check_samples(samples) {
        return Err(KernelError::InvalidSamples);
    }
    let (weights, scale) = gaussian_taps_vec(samples);
    let n = weights.len();
    let column = weights.clone();
    let row = Kernel { rows: 1, cols: n, weights: WeightMatrix::new(1, n, weights), scale };
    let col = Kernel { rows: n, cols: 1, weights: WeightMatrix::new(n, 1, column), scale };
    proof {
        assert(row@.weights =~= gaussian_taps(samples@));
        assert(col@.weights =~= gaussian_taps(samples@));
        lemma_gaussian_shape(samples@);
    }
    Ok((row, col))
}

/// The normalized square Gaussian kernel of radius `samples.len() - 1`.
/// Fails when the samples are not valid.
pub fn gaussian_kernel_2d(samples: &Vec<u32>) -> (r: Result<Kernel, KernelError>)
    ensures
        r is Err <==> !valid_samples(samples@),
        r is Err ==> r == Err::<Kernel, KernelError>(KernelError::InvalidSamples),
        r matches Ok(k) ==> k.wf() && k@ == gaussian_square(samples@) && k@.normalized(),
{
    if !check_samples(samples) {
        return Err(KernelError::InvalidSamples);
    }
    let ghost g = gaussian_cells(samples@);
    let radius: usize = samples.len() - 1;
    let n: usize = 2 * radius + 1;
    assert(1 <= n * n <= MAX_CELLS) by (nonlinear_arith)
        requires 1 <= n <= 2 * MAX_RADIUS + 1;
    let cells: usize = n * n;
    let mut weights: Vec<i64> = Vec::with_capacity(cells);
    let mut scale: u128 = 0;
    let mut t: usize = 0;
    let mut i: usize = 0;
    let mut j: usize = 0;
    while t < cells
        invariant
            valid_samples(samples@),
            g == gaussian_cells(samples@),
            radius == samples@.len() - 1,
            n == taps(radius as int),
            cells == n * n,
            cells <= MAX_CELLS,
            t <= cells,
            j < n,
            t == i * n + j,
            weights@.len() == t,
            forall|u: int| 0 <= u < t ==> weights@[u] as int == g[u],
            scale == weight_sum(g.take(t as int)),
            scale <= t * 0x4000000000000000,
        decreases cells - t,
    {
        proof {
            lemma_fundamental_div_mod_converse(t as int, n as int, i as int, j as int);
            lemma_weight_sum_step(g, t as int);
            assert(i < n) by (nonlinear_arith)
                requires t < n * n, t == i * n + j, 0 <= j;
        }
        let di: usize = if i < radius { radius - i } else { i - radius };
        let dj: usize = if j < radius { radius - j } else { j - radius };
        let a = samples[di];
        let b = samples[dj];
        assert(a as int * b as int <= 0x4000000000000000) by (nonlinear_arith)
            requires a <= SAMPLE_ONE, b <= SAMPLE_ONE;
        let v: u64 = a as u64 * b as u64;
        weights.push(v as i64);
        scale = scale + v as u128;
        t = t + 1;
        j = j + 1;
        if j == n {
            assert((i + 1) * n == i * n + n) by (nonlinear_arith);
            j = 0;
            i = i + 1;
        }
    }
    let k = Kernel { rows: n, cols: n, weights: WeightMatrix::new(n, n, weights), scale };
    proof {
        assert(g.take(cells as int) =~= g);
        assert(k@.weights =~= g);
        lemma_gaussian_shape(samples@);
    }
    Ok(k)
}

/// The normalized square Gaussian kernel. Fails when the samples are not
/// valid.
pub fn gaussian_blur_kernel_2d(samples: &Vec<u32>) -> (r: Result<Kernel, KernelError>)
    ensures
        r is Err <==> !valid_samples(samples@),
        r is Err ==> r == Err::<Kernel, KernelError>(KernelError::InvalidSamples),
        r matches Ok(k) ==> k.wf() && k@ == gaussian_square(samples@) && k@.normalized(),
{
    gaussian_kernel_2d(samples)
}

/// The horizontal Sobel gradient `[[-1, 0, 1], [-2, 0, 2], [-1, 0, 1]]`.
pub open spec fn sobel_x() -> KernelModel {
    KernelModel { rows: 3, cols: 3, weights: seq![-1, 0, 1, -2, 0, 2, -1, 0, 1], scale: 1 }
}

/// The vertical Sobel gradient `[[1, 2, 1], [0, 0, 0], [-1, -2, -1]]`.
pub open spec fn sobel_y() -> KernelModel {
    KernelModel { rows: 3, cols: 3, weights: seq![1, 2, 1, 0, 0, 0, -1, -2, -1], scale: 1 }
}

/// The two fixed Sobel gradient kernels, horizontal then vertical; their
/// integer weights are not normalized.
pub fn sobel_2d() -> (r: (Kernel, Kernel))
    ensures
        r.0.wf() && r.1.wf(),
        r.0@ == sobel_x(),
        r.1@ == sobel_y(),
{
    let kx = Kernel { rows: 3, cols: 3, weights: WeightMatrix::new(3, 3, vec![-1, 0, 1, -2, 0, 2, -1, 0, 1]), scale: 1 };
    let ky = Kernel { rows: 3, cols: 3, weights: WeightMatrix::new(3, 3, vec![1, 2, 1, 0, 0, 0, -1, -2, -1]), scale: 1 };
    proof {
        assert(kx@.weights =~= sobel_x().weights);
        assert(ky@.weights =~= sobel_y().weights);
    }
    (kx, ky)
}

} // verus!
