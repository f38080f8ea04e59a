use filters::{crop_image, CropError, CropRegion};
use image::{imageops, ImageBuffer, Rgb};

#[test]
fn test_valid_crop() {
    // A 3×1 image
    let pixels: ImageBuffer<Rgb<u8>, _> =
        ImageBuffer::from_raw(3, 1, vec![0, 0, 0, 255, 255, 255, 0, 0, 0]).unwrap();

    let region = crop_image(pixels.width(), pixels.height(), 1, 0, Some(1), Some(1)).unwrap();
    let actual = imageops::crop_imm(&pixels, region.x, region.y, region.width, region.height)
        .to_image()
        .into_raw();

    assert_eq!(actual, [255, 255, 255]);
}

#[test]
fn crop_defaults_to_image_edges() {
    assert_eq!(
        crop_image(10, 8, 3, 2, None, None),
        Ok(CropRegion { x: 3, y: 2, width: 7, height: 6 })
    );
    assert_eq!(crop_image(10, 8, 10, 8, None, None), Ok(CropRegion { x: 10, y: 8, width: 0, height: 0 }));
}

#[test]
fn crop_errors() {
    assert_eq!(crop_image(10, 8, 11, 0, None, None), Err(CropError::XOutOfBounds));
    assert_eq!(crop_image(10, 8, 0, 9, None, None), Err(CropError::YOutOfBounds));
    assert_eq!(crop_image(10, 8, 4, 0, Some(7), None), Err(CropError::WidthOutOfBounds));
    assert_eq!(crop_image(10, 8, 0, 4, None, Some(5)), Err(CropError::HeightOutOfBounds));
    assert_eq!(crop_image(10, 8, 1, 1, Some(u32::MAX), None), Err(CropError::WidthOutOfBounds));
}
