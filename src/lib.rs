//! Spatial convolution filters (box blur, Gaussian blur, Sobel edges) over
//! 8-bit pixel buffers.
//!
//! Kernel weights are exact rationals: integer weights over one shared
//! positive scale. Gaussian kernels are built from fixed-point samples of the
//! bell curve, which the caller computes for its sigma.

pub mod crop;
pub mod edges;
pub mod engine;
pub mod kernel;
pub mod laws;
pub mod matrix;
pub mod pipeline;
pub mod region;
pub mod separable;

pub use crop::{crop_image, CropError, CropRegion};
pub use edges::{magnitude, sobel2d, to_luma};
pub use engine::{convolve, convolve_into, convolve_row, Image, Weight};
pub use kernel::{
    box_blur_kernel_1d, box_blur_kernel_2d, gaussian_blur_kernel_1d, gaussian_blur_kernel_2d,
    gaussian_kernel_1d, gaussian_kernel_2d, sobel_2d, Kernel, KernelError, MAX_RADIUS, SAMPLE_ONE,
};
pub use pipeline::{box_blur_1d, box_blur_2d, gaussian_blur_1d, gaussian_blur_2d, hand_over};
pub use region::{gaussian_1d, gaussian_2d, paste, RgbBuffer};
