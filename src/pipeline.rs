//! Blur pipelines: one full 2D pass, or a row pass and a column pass with the
//! first pass's output handed over as the second pass's source.
use vstd::prelude::*;
use crate::engine::{convolve, convolution, Image};
use crate::kernel::{
    box_blur_kernel_1d, box_blur_kernel_2d, box_row, box_square, column_of, gaussian_blur_kernel_1d,
    gaussian_blur_kernel_2d, gaussian_row, gaussian_square, valid_samples, Kernel, KernelError,
    KernelModel, MAX_RADIUS,
};

verus! {

/// The buffers that a row pass with `row` and then a column pass with `col`
/// leave: the read buffer holds the row pass's output, and the write buffer
/// that of the column pass over it.
pub open spec fn separable_result(img: Image, row: KernelModel, col: KernelModel) -> (Seq<u8>, Seq<u8>) {
    let (w, h, ch) = (img.width as int, img.height as int, img.channels as int);
    let mid = convolution(img.buf_read@, w, h, ch, row);
    (mid, convolution(mid, w, h, ch, col))
}

/// Two images have the same shape fields.
pub open spec fn same_shape(a: Image, b: Image) -> bool {
    &&& a.width == b.width
    &&& a.height == b.height
    &&& a.channels == b.channels
}

/// Copies the write buffer into the read buffer, so that the next pass reads
/// what the last one wrote.
pub fn hand_over(img: &mut Image)
    requires
        old(img).wf(),
    ensures
        final(img).wf(),
        same_shape(*final(img), *old(img)),
        final(img).buf_read@ == old(img).buf_write@,
        final(img).buf_write@ == old(img).buf_write@,
{
    img.buf_read = img.buf_write.clone();
    assert(img.buf_read@ =~= img.buf_write@);
}

/// A row pass with `row`, the hand-over, then a column pass with `col`.
fn separable(img: &mut Image, row: &Kernel, col: &Kernel)
    requires
        old(img).wf(),
        row.wf(),
        col.wf(),
    ensures
        final(img).wf(),
        same_shape(*final(img), *old(img)),
        (final(img).buf_read@, final(img).buf_write@) == separable_result(*old(img), row@, col@),
{
    convolve(img, row);
    hand_over(img);
    convolve(img, col);
}

/// Separable box blur: a row pass and a column pass with the box kernels of
/// `radius`.
pub fn box_blur_1d(img: &mut Image, radius: usize)
    requires
        old(img).wf(),
        radius <= MAX_RADIUS,
    ensures
        final(img).wf(),
        same_shape(*final(img), *old(img)),
        (final(img).buf_read@, final(img).buf_write@) == separable_result(
            *old(img),
            box_row(radius as nat),
            column_of(box_row(radius as nat)),
        ),
{
    let (row, col) = box_blur_kernel_1d(radius);
    separable(img, &row, &col);
}

/// Box blur in one pass with the square box kernel of `radius`.
pub fn box_blur_2d(img: &mut Image, radius: usize)
    requires
        old(img).wf(),
        radius <= MAX_RADIUS,
    ensures
        final(img).wf(),
        same_shape(*final(img), *old(img)),
        final(img).buf_read == old(img).buf_read,
        final(img).buf_write@ == convolution(
            old(img).buf_read@,
            old(img).width as int,
            old(img).height as int,
            old(img).channels as int,
            box_square(radius as nat),
        ),
{
    let k = box_blur_kernel_2d(radius);
    convolve(img, &k);
}

/// Separable Gaussian blur with the kernels of `samples`. Fails, before
/// touching the image, when the samples are not valid.
pub fn gaussian_blur_1d(img: &mut Image, samples: &Vec<u32>) -> (r: Result<(), KernelError>)
    requires
        old(img).wf(),
    ensures
        final(img).wf(),
        same_shape(*final(img), *old(img)),
        r is Err <==> !valid_samples(samples@),
        r is Err ==> r == Err::<(), KernelError>(KernelError::InvalidSamples) && *final(img) == *old(img),
        r is Ok ==> (final(img).buf_read@, final(img).buf_write@) == separable_result(
            *old(img),
            gaussian_row(samples@),
            column_of(gaussian_row(samples@)),
        ),
{
    match gaussian_blur_kernel_1d(samples) {
        Err(e) => Err(e),
        Ok((row, col)) => {
            separable(img, &row, &col);
            Ok(())
        },
    }
}

/// Gaussian blur in one pass with the square kernel of `samples`. Fails,
/// before touching the image, when the samples are not valid.
pub fn gaussian_blur_2d(img: &mut Image, samples: &Vec<u32>) -> (r: Result<(), KernelError>)
    requires
        old(img).wf(),
    ensures
        final(img).wf(),
        same_shape(*final(img), *old(img)),
        final(img).buf_read == old(img).buf_read,
        r is Err <==> !valid_samples(samples@),
        r is Err ==> r == Err::<(), KernelError>(KernelError::InvalidSamples) && *final(img) == *old(img),
        r is Ok ==> final(img).buf_write@ == convolution(
            old(img).buf_read@,
            old(img).width as int,
            old(img).height as int,
            old(img).channels as int,
            gaussian_square(samples@),
        ),
{
    match gaussian_blur_kernel_2d(samples) {
        Err(e) => Err(e),
        Ok(k) => {
            convolve(img, &k);
            Ok(())
        },
    }
}

} // verus!
