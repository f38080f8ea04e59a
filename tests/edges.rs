use filters::{magnitude, sobel2d, to_luma, Image, KernelError};

fn gradient_image() -> Vec<u8> {
    let mut img = Vec::new();
    for y in 0..3u8 {
        for x in 0..4u8 {
            let v = 10 * x + 3 * (2 - y);
            img.extend_from_slice(&[v, v, v, 255]);
        }
    }
    img
}

#[test]
fn magnitude_of_gradients() {
    assert_eq!(magnitude(3, 4), 5);
    assert_eq!(magnitude(0, 0), 0);
    assert_eq!(magnitude(10, 10), 14);
    assert_eq!(magnitude(40, 12), 41);
    assert_eq!(magnitude(200, 200), 255);
    assert_eq!(magnitude(255, 0), 255);
    assert_eq!(magnitude(180, 179), 253);
}

#[test]
fn luma_replaces_color_channels() {
    let mut buf = vec![255, 0, 0, 9, 0, 255, 0, 8, 0, 0, 255, 7, 100, 100, 100, 6];
    to_luma(&mut buf, 4);
    assert_eq!(buf, vec![76, 76, 76, 9, 149, 149, 149, 8, 29, 29, 29, 7, 100, 100, 100, 6]);
}

#[test]
fn sobel_on_gradient() {
    let buf = gradient_image();
    let mut img = Image { buf_read: buf.clone(), buf_write: buf.clone(), width: 4, height: 3, channels: 4 };
    sobel2d(&mut img, None).unwrap();
    assert_eq!(img.buf_read, buf);
    let expect = vec![
        41, 41, 41, 0, 80, 80, 80, 0, 80, 80, 80, 0, 41, 41, 41, 0, //
        46, 46, 46, 0, 83, 83, 83, 0, 83, 83, 83, 0, 46, 46, 46, 0, //
        41, 41, 41, 0, 80, 80, 80, 0, 80, 80, 80, 0, 41, 41, 41, 0,
    ];
    assert_eq!(img.buf_write, expect);
}

#[test]
fn sobel_on_uniform_image_is_zero() {
    let buf = vec![90, 60, 30]
        .into_iter()
        .cycle()
        .take(5 * 5 * 3)
        .collect::<Vec<u8>>();
    let mut img = Image { buf_read: buf.clone(), buf_write: buf, width: 5, height: 5, channels: 3 };
    sobel2d(&mut img, Some(&vec![2147483648, 1000000000, 100000000])).unwrap();
    assert_eq!(img.buf_write, vec![0; 75]);
    // 0.299 * 90 + 0.587 * 60 + 0.114 * 30 = 65.55
    assert_eq!(img.buf_read, vec![65; 75]);
}

#[test]
fn sobel_rejects_invalid_pre_blur() {
    let buf = gradient_image();
    let mut img = Image { buf_read: buf.clone(), buf_write: vec![1; 48], width: 4, height: 3, channels: 4 };
    assert_eq!(sobel2d(&mut img, Some(&vec![])), Err(KernelError::InvalidSamples));
    assert_eq!(img.buf_read, buf);
    assert_eq!(img.buf_write, vec![1; 48]);
}
