//! Sobel edge detection: an optional Gaussian pre-blur, conversion to luma,
//! the two gradient passes and their combination into a gradient magnitude.
use vstd::prelude::*;
use vstd::arithmetic::div_mod::lemma_fundamental_div_mod_converse;
use crate::engine::{convolve, convolve_into, convolution, Image};
use crate::kernel::{column_of, gaussian_row, sobel_2d, sobel_x, sobel_y, valid_samples, KernelError};
use crate::pipeline::{gaussian_blur_1d, hand_over, same_shape, separable_result};

verus! {

/// The luma of a color: `0.299 * r + 0.587 * g + 0.114 * b`, truncated.
pub open spec fn luma(r: int, g: int, b: int) -> int {
    (299 * r + 587 * g + 114 * b) / 1000
}

/// `buf` with the first three channels of each pixel replaced by the pixel's
/// luma; further channels are kept.
pub open spec fn luma_image(buf: Seq<u8>, channels: int) -> Seq<u8> {
    Seq::new(
        buf.len(),
        |p: int|
            {
                let start = p - p % channels;
                if p % channels < 3 {
                    luma(buf[start] as int, buf[start + 1] as int, buf[start + 2] as int) as u8
                } else {
                    buf[p]
                }
            },
    )
}

/// `m` is the gradient magnitude `sqrt(gx^2 + gy^2)`, clamped to 255 and
/// truncated.
pub open spec fn is_magnitude(m: int, gx: int, gy: int) -> bool {
    let n = gx * gx + gy * gy;
    if n >= 255 * 255 {
        m == 255
    } else {
        m * m <= n < (m + 1) * (m + 1)
    }
}

/// The buffer that the gradients are computed from: the read buffer, blurred
/// first with the Gaussian of `pre_blur` where there is one.
pub open spec fn sobel_source(img: Image, pre_blur: Option<Seq<u32>>) -> Seq<u8> {
    match pre_blur {
        Some(s) => separable_result(img, gaussian_row(s), column_of(gaussian_row(s))).1,
        None => img.buf_read@,
    }
}

/// The view of an optional sample vector.
pub open spec fn samples_view(pre_blur: Option<&Vec<u32>>) -> Option<Seq<u32>> {
    match pre_blur {
        Some(s) => Some(s@),
        None => None,
    }
}

/// The gradient magnitude of two gradient samples.
pub fn magnitude(gx: u8, gy: u8) -> (m: u8)
    ensures
        is_magnitude(m as int, gx as int, gy as int),
{
    assert(gx as int * gx as int <= 255 * 255 && gy as int * gy as int <= 255 * 255) by (nonlinear_arith)
        requires gx <= 255, gy <= 255;
    let n: u32 = gx as u32 * gx as u32 + gy as u32 * gy as u32;
    if n >= 255 * 255 {
        return 255;
    }
    let mut lo: u32 = 0;
    let mut hi: u32 = 255;
    while hi - lo > 1
        invariant
            lo < hi <= 255,
            lo * lo <= n < hi * hi,
        decreases hi - lo,
    {
        let mid: u32 = lo + (hi - lo) / 2;
        assert(mid * mid <= 255 * 255) by (nonlinear_arith)
            requires mid <= 255;
        if mid * mid <= n {
            lo = mid;
        } else {
            hi = mid;
        }
    }
    lo as u8
}

/// Replaces the first three channels of every pixel by the pixel's luma.
pub fn to_luma(buf: &mut Vec<u8>, channels: usize)
    requires
        3 <= channels,
        (old(buf)@.len() as int) % (channels as int) == 0,
    ensures
        final(buf)@ == luma_image(old(buf)@, channels as int),
{
    let ghost before = buf@;
    let ghost ch = channels as int;
    let ghost target = luma_image(before, ch);
    let len = buf.len();
    let mut base: usize = 0;
    let ghost mut pix: int = 0;
    while base < len
        invariant
            ch == channels as int,
            3 <= ch,
            target == luma_image(before, ch),
            len == before.len(),
            (len as int) % ch == 0,
            buf@.len() == len,
            base == pix * ch,
            0 <= base <= len,
            forall|q: int| 0 <= q < base ==> buf@[q] == target[q],
            forall|q: int| base <= q < len ==> buf@[q] == before[q],
        decreases len - base,
    {
        proof {
            assert(base + ch <= len) by (nonlinear_arith)
                requires base == pix * ch, base < len, (len as int) % ch == 0, ch >= 3, 0 <= base;
            assert forall|q: int| base <= q < base + ch implies #[trigger] (q % ch) == q - base && q - q % ch == base by {
                lemma_fundamental_div_mod_converse(q, ch, pix, q - base);
            }
        }
        let r = buf[base] as u32;
        let g = buf[base + 1] as u32;
        let b = buf[base + 2] as u32;
        let y: u32 = (299 * r + 587 * g + 114 * b) / 1000;
        assert(y <= 255);
        buf.set(base, y as u8);
        buf.set(base + 1, y as u8);
        buf.set(base + 2, y as u8);
        assert((pix + 1) * ch == base + ch) by (nonlinear_arith)
            requires base == pix * ch;
        base = base + channels;
        proof {
            pix = pix + 1;
        }
    }
    assert(buf@ =~= target);
}

/// Sobel edge detection. With `pre_blur`, the image is first blurred with that
/// Gaussian and the result handed over to the read buffer; then the read
/// buffer is turned to luma, and each output sample is the magnitude of the
/// horizontal and the vertical gradient there. Fails, before touching the
/// image, when the pre-blur samples are not valid.
pub fn sobel2d(img: &mut Image, pre_blur: Option<&Vec<u32>>) -> (r: Result<(), KernelError>)
    requires
        old(img).wf(),
        3 <= old(img).channels,
    ensures
        final(img).wf(),
        same_shape(*final(img), *old(img)),
        r is Err <==> (pre_blur matches Some(s) && !valid_samples(s@)),
        r is Err ==> r == Err::<(), KernelError>(KernelError::InvalidSamples) && *final(img) == *old(img),
        r is Ok ==> {
            let (w, h, ch) = (old(img).width as int, old(img).height as int, old(img).channels as int);
            let src = luma_image(sobel_source(*old(img), samples_view(pre_blur)), ch);
            &&& final(img).buf_read@ == src
            &&& forall|p: int|
                0 <= p < src.len() ==> is_magnitude(
                    #[trigger] final(img).buf_write@[p] as int,
                    convolution(src, w, h, ch, sobel_x())[p] as int,
                    convolution(src, w, h, ch, sobel_y())[p] as int,
                )
        },
{
    let ghost (w, h, ch) = (img.width as int, img.height as int, img.channels as int);
    match pre_blur {
        Some(s) => {
            match gaussian_blur_1d(img, s) {
                Err(e) => {
                    return Err(e);
                },
                Ok(()) => {},
            }
            hand_over(img);
        },
        None => {},
    }
    assert(img.buf_read@ == sobel_source(*old(img), samples_view(pre_blur)));
    let (kx, ky) = sobel_2d();
    proof {
        assert(w * h * ch == (w * h) * ch) by (nonlinear_arith);
        vstd::arithmetic::div_mod::lemma_mod_multiples_basic(w * h, ch);
    }
    to_luma(&mut img.buf_read, img.channels);
    let ghost src = img.buf_read@;
    convolve(img, &kx);
    let mut tmp: Vec<u8> = img.buf_read.clone();
    convolve_into(&img.buf_read, &mut tmp, img.width, img.height, img.channels, &ky);
    let len = img.buf_write.len();
    let mut p: usize = 0;
    while p < len
        invariant
            img.wf(),
            w == img.width as int && h == img.height as int && ch == img.channels as int,
            img.buf_read@ == src,
            len == src.len(),
            tmp@ == convolution(src, w, h, ch, sobel_y()),
            p <= len,
            forall|q: int| p <= q < len ==> img.buf_write@[q] == convolution(src, w, h, ch, sobel_x())[q],
            forall|q: int|
                0 <= q < p ==> is_magnitude(
                    #[trigger] img.buf_write@[q] as int,
                    convolution(src, w, h, ch, sobel_x())[q] as int,
                    convolution(src, w, h, ch, sobel_y())[q] as int,
                ),
        decreases len - p,
    {
        let m = magnitude(img.buf_write[p], tmp[p]);
        img.buf_write.set(p, m);
        p = p + 1;
    }
    Ok(())
}

} // verus!
