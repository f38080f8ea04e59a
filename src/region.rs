//! Blurring an RGB image into a rectangle of a larger canvas.
use vstd::prelude::*;
use crate::engine::{convolve_into, convolution, lemma_index_decompose, lemma_index_in_bounds, sample_index, shape_ok};
use crate::kernel::{
    column_of, gaussian_blur_kernel_1d, gaussian_kernel_2d, gaussian_row, gaussian_square, valid_samples,
    KernelError,
};

verus! {

/// An RGB image: `width * height` pixels of three samples each, row-major.
#[derive(Debug, Clone, PartialEq, Eq, Default)]
pub struct RgbBuffer {
    pub width: u32,
    pub height: u32,
    pub samples: Vec<u8>,
}

impl RgbBuffer {
    /// The samples match the declared size.
    pub open spec fn wf(&self) -> bool {
        shape_ok(self.samples@.len() as int, self.width as int, self.height as int, 3)
    }
}

/// `canvas` (of width `cw`, three channels) with the `pw` by `ph` RGB `patch`
/// written over it with its top-left corner at `(x0, y0)`.
pub open spec fn pasted(canvas: Seq<u8>, cw: int, patch: Seq<u8>, pw: int, ph: int, x0: int, y0: int) -> Seq<u8> {
    Seq::new(
        canvas.len(),
        |p: int|
            {
                let c = p % 3;
                let x = (p / 3) % cw;
                let y = (p / 3) / cw;
                if x0 <= x < x0 + pw && y0 <= y < y0 + ph {
                    patch[sample_index(pw, 3, x - x0, y - y0, c)]
                } else {
                    canvas[p]
                }
            },
    )
}

/// Writes the `pw` by `ph` RGB `patch` over `canvas` at `(x0, y0)`; the
/// patch must lie inside the canvas.
pub fn paste(canvas: &Vec<u8>, cw: u32, ch: u32, patch: &Vec<u8>, pw: u32, ph: u32, x0: u32, y0: u32) -> (r: Vec<u8>)
    requires
        shape_ok(canvas@.len() as int, cw as int, ch as int, 3),
        shape_ok(patch@.len() as int, pw as int, ph as int, 3),
        x0 + pw <= cw,
        y0 + ph <= ch,
    ensures
        r@ == pasted(canvas@, cw as int, patch@, pw as int, ph as int, x0 as int, y0 as int),
{
    let ghost target = pasted(canvas@, cw as int, patch@, pw as int, ph as int, x0 as int, y0 as int);
    let len = canvas.len();
    let plen = patch.len();
    let mut out: Vec<u8> = Vec::with_capacity(len);
    if cw == 0 || ch == 0 {
        proof {
            assert(cw * ch * 3 == 0) by (nonlinear_arith)
                requires cw == 0 || ch == 0;
        }
        assert(out@ =~= target);
        return out;
    }
    let mut p: usize = 0;
    let mut x: u32 = 0;
    let mut y: u32 = 0;
    let mut c: usize = 0;
    while p < len
        invariant
            target == pasted(canvas@, cw as int, patch@, pw as int, ph as int, x0 as int, y0 as int),
            shape_ok(canvas@.len() as int, cw as int, ch as int, 3),
            shape_ok(patch@.len() as int, pw as int, ph as int, 3),
            x0 + pw <= cw,
            y0 + ph <= ch,
            len == canvas@.len(),
            plen == patch@.len(),
            1 <= cw && 1 <= ch,
            x < cw,
            c < 3,
            y <= ch,
            p == sample_index(cw as int, 3, x as int, y as int, c as int),
            p <= len,
            out@.len() == p,
            forall|q: int| 0 <= q < p ==> out@[q] == target[q],
        decreases len - p,
    {
        if y >= ch {
            assert(p >= len) by (nonlinear_arith)
                requires p == (y * cw + x) * 3 + c, y >= ch, len == cw * ch * 3, x >= 0, c >= 0, cw >= 0;
        }
        proof {
            lemma_index_decompose(cw as int, 3, x as int, y as int, c as int);
        }
        let v: u8 = if x0 <= x && x < x0 + pw && y0 <= y && y < y0 + ph {
            proof {
                lemma_index_in_bounds(pw as int, ph as int, 3, (x - x0) as int, (y - y0) as int, c as int);
            }
            patch[(((y - y0) as usize) * (pw as usize) + ((x - x0) as usize)) * 3 + c]
        } else {
            canvas[p]
        };
        out.push(v);
        p = p + 1;
        if c < 2 {
            c = c + 1;
        } else {
            c = 0;
            if x + 1 < cw {
                x = x + 1;
            } else {
                assert((y * cw + x) * 3 + 3 == ((y + 1) * cw) * 3) by (nonlinear_arith)
                    requires x + 1 == cw;
                x = 0;
                y = y + 1;
            }
        }
    }
    assert(out@ =~= target);
    out
}

/// Separable Gaussian blur of `img` with the kernels of `samples`, written
/// into `buf` with the top-left corner at `(crop_x, crop_y)`; the rest of
/// `buf` is kept. Fails, before touching `buf`, when the samples are not
/// valid.
pub fn gaussian_1d(img: &RgbBuffer, crop_x: u32, crop_y: u32, buf: &mut RgbBuffer, samples: &Vec<u32>) -> (r: Result<(), KernelError>)
    requires
        img.wf(),
        old(buf).wf(),
        crop_x + img.width <= old(buf).width,
        crop_y + img.height <= old(buf).height,
    ensures
        final(buf).wf(),
        final(buf).width == old(buf).width,
        final(buf).height == old(buf).height,
        r is Err <==> !valid_samples(samples@),
        r is Err ==> r == Err::<(), KernelError>(KernelError::InvalidSamples) && *final(buf) == *old(buf),
        r is Ok ==> {
            let (w, h) = (img.width as int, img.height as int);
            let row = gaussian_row(samples@);
            let blurred = convolution(convolution(img.samples@, w, h, 3, row), w, h, 3, column_of(row));
            final(buf).samples@ == pasted(old(buf).samples@, old(buf).width as int, blurred, w, h, crop_x as int, crop_y as int)
        },
{
    let (row, col) = match gaussian_blur_kernel_1d(samples) {
        Err(e) => {
            return Err(e);
        },
        Ok(p) => p,
    };
    let mut mid: Vec<u8> = img.samples.clone();
    convolve_into(&img.samples, &mut mid, img.width, img.height, 3, &row);
    let mut out: Vec<u8> = mid.clone();
    convolve_into(&mid, &mut out, img.width, img.height, 3, &col);
    let merged = paste(&buf.samples, buf.width, buf.height, &out, img.width, img.height, crop_x, crop_y);
    buf.samples = merged;
    Ok(())
}

/// One-pass Gaussian blur of `img` with the square kernel of `samples`,
/// written into `buf` with the top-left corner at `(crop_x, crop_y)`; the
/// rest of `buf` is kept. Fails, before touching `buf`, when the samples are
/// not valid.
pub fn gaussian_2d(img: &RgbBuffer, crop_x: u32, crop_y: u32, buf: &mut RgbBuffer, samples: &Vec<u32>) -> (r: Result<(), KernelError>)
    requires
        img.wf(),
        old(buf).wf(),
        crop_x + img.width <= old(buf).width,
        crop_y + img.height <= old(buf).height,
    ensures
        final(buf).wf(),
        final(buf).width == old(buf).width,
        final(buf).height == old(buf).height,
        r is Err <==> !valid_samples(samples@),
        r is Err ==> r == Err::<(), KernelError>(KernelError::InvalidSamples) && *final(buf) == *old(buf),
        r is Ok ==> {
            let (w, h) = (img.width as int, img.height as int);
            let blurred = convolution(img.samples@, w, h, 3, gaussian_square(samples@));
            final(buf).samples@ == pasted(old(buf).samples@, old(buf).width as int, blurred, w, h, crop_x as int, crop_y as int)
        },
{
    let k = match gaussian_kernel_2d(samples) {
        Err(e) => {
            return Err(e);
        },
        Ok(k) => k,
    };
    let mut out: Vec<u8> = img.samples.clone();
    convolve_into(&img.samples, &mut out, img.width, img.height, 3, &k);
    let merged = paste(&buf.samples, buf.width, buf.height, &out, img.width, img.height, crop_x, crop_y);
    buf.samples = merged;
    Ok(())
}

} // verus!
