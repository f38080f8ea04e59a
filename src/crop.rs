//! Validation of the rectangle of an image that a filter is applied to.
use vstd::prelude::*;

verus! {

/// A rectangle of pixels: its top-left corner and its size.
#[derive(Debug, Clone, Copy, PartialEq, Eq, Structural)]
pub struct CropRegion {
    pub x: u32,
    pub y: u32,
    pub width: u32,
    pub height: u32,
}

/// Why a crop rectangle does not fit its image.
#[derive(Debug, Clone, Copy, PartialEq, Eq, Structural)]
pub enum CropError {
    /// The left edge lies past the image's width.
    XOutOfBounds,
    /// The top edge lies past the image's height.
    YOutOfBounds,
    /// The right edge lies past the image's width.
    WidthOutOfBounds,
    /// The bottom edge lies past the image's height.
    HeightOutOfBounds,
}

/// The crop of a `width` by `height` image at `(x, y)`: a missing size
/// extends to the image's edge, and the first bound that is broken, in the
/// order left, top, right, bottom, is the error.
pub open spec fn crop_outcome(
    width: u32,
    height: u32,
    x: u32,
    y: u32,
    w: Option<u32>,
    h: Option<u32>,
) -> Result<CropRegion, CropError> {
    if x > width {
        Err(CropError::XOutOfBounds)
    } else if y > height {
        Err(CropError::YOutOfBounds)
    } else {
        let cw: int = match w {
            Some(v) => v as int,
            None => width - x,
        };
        let ch: int = match h {
            Some(v) => v as int,
            None => height - y,
        };
        if cw + x > width {
            Err(CropError::WidthOutOfBounds)
        } else if ch + y > height {
            Err(CropError::HeightOutOfBounds)
        } else {
            Ok(CropRegion { x, y, width: cw as u32, height: ch as u32 })
        }
    }
}

/// The region of a `width` by `height` image to filter, at `(crop_x, crop_y)`
/// and of the given size, or up to the image's edges where no size is given.
pub fn crop_image(
    width: u32,
    height: u32,
    crop_x: u32,
    crop_y: u32,
    crop_w: Option<u32>,
    crop_h: Option<u32>,
) -> (r: Result<CropRegion, CropError>)
    ensures
        r == crop_outcome(width, height, crop_x, crop_y, crop_w, crop_h),
{
    if crop_x > width {
        return Err(CropError::XOutOfBounds);
    }
    if crop_y > height {
        return Err(CropError::YOutOfBounds);
    }
    let cw: u32 = match crop_w {
        Some(v) => v,
        None => width - crop_x,
    };
    let ch: u32 = match crop_h {
        Some(v) => v,
        None => height - crop_y,
    };
    if cw as u64 + crop_x as u64 > width as u64 {
        return Err(CropError::WidthOutOfBounds);
    }
    if ch as u64 + crop_y as u64 > height as u64 {
        return Err(CropError::HeightOutOfBounds);
    }
    Ok(CropRegion { x: crop_x, y: crop_y, width: cw, height: ch })
}

} // verus!
