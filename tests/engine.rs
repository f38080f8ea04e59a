use filters::{
    box_blur_1d, box_blur_2d, box_blur_kernel_1d, box_blur_kernel_2d, convolve, convolve_into, convolve_row,
    gaussian_blur_1d, gaussian_blur_2d, hand_over, Image, KernelError, Weight,
};

fn image(buf: Vec<u8>, width: u32, height: u32, channels: usize) -> Image {
    Image { buf_read: buf.clone(), buf_write: buf, width, height, channels }
}

fn uniform(width: u32, height: u32, color: &[u8]) -> Vec<u8> {
    let mut buf = Vec::new();
    for _ in 0..width * height {
        buf.extend_from_slice(color);
    }
    buf
}

fn varied(width: u32, height: u32, channels: usize) -> Vec<u8> {
    let mut buf = Vec::new();
    let mut state: u32 = 12345;
    for _ in 0..(width * height) as usize * channels {
        state = state.wrapping_mul(1103515245).wrapping_add(12345);
        buf.push((state >> 16) as u8);
    }
    buf
}

#[test]
fn weightedelement_into_u8() {
    for expect in 0..=u8::MAX {
        let result: u8 = Weight(expect as i128).into_sample(1);
        assert_eq!(expect, result);
    }
}

#[test]
fn weightedelement_clamp_min() {
    // -0.0, -0.25, -0.5, -1.0, -1.5, -2.0 and -1100.0, in quarters
    let values: Vec<i128> = vec![-0, -1, -2, -4, -6, -8, -100 * 4 - 1000 * 4];

    for value in values.into_iter() {
        assert_eq!(0u8, Weight(value).into_sample(4));
    }
}

#[test]
fn weightedelement_clamp_max() {
    // 255.0, 255.25, 255.5, 256.0, 300.0, 2000.0 and 5000.0, in quarters
    let values: Vec<i128> = vec![1020, 1021, 1022, 1024, 1200, 8000, 20000];

    for value in values.into_iter() {
        assert_eq!(255u8, Weight(value).into_sample(4));
    }
}

#[test]
fn weightedelement_add_assign() {
    for a in 0..=255i128 {
        for b in (a + 1)..=255i128 {
            let expect = a + b;

            let mut result = Weight(a);
            result.add_assign(Weight(b));

            assert_eq!(expect, result.0);
        }
    }
}

#[test]
fn weight_truncates_toward_zero() {
    assert_eq!(Weight(7).into_sample(2), 3);
    assert_eq!(Weight(254 * 3 + 2).into_sample(3), 254);
    assert_eq!(Weight(-1).into_sample(1), 0);
}

#[test]
fn text_box_blur_1d_rgb() {
    // A 3×1 image
    let pixels: Vec<u8> = vec![
        0, 0, 0,        // R
        255, 255, 255,  // G
        0, 0, 0         // B
    ];

    let mut actual = image(pixels, 3, 1, 3);

    box_blur_1d(&mut actual, 1);

    assert_eq!(actual.buf_write, [
        85, 85, 85, // R
        85, 85, 85, // G
        85, 85, 85  // B
    ]);
}

#[test]
fn test_image_default() {
    let actual = Image::default();
    let expect = Image { buf_read: vec![], buf_write: vec![], width: 0, height: 0, channels: 0 };

    assert_eq!(actual, expect);
}

#[test]
fn box_blur_2d_three_pixels() {
    let mut img = image(vec![0, 0, 0, 255, 255, 255, 0, 0, 0], 3, 1, 3);
    box_blur_2d(&mut img, 1);
    assert_eq!(img.buf_write, vec![85; 9]);
    assert_eq!(img.buf_read, vec![0, 0, 0, 255, 255, 255, 0, 0, 0]);
}

#[test]
fn edge_replication_at_borders() {
    // one channel, 4×1: the left border pixel is read twice for the first output
    let mut img = image(vec![30, 0, 0, 90], 4, 1, 1);
    let (row, _) = box_blur_kernel_1d(1);
    convolve(&mut img, &row);
    assert_eq!(img.buf_write, vec![20, 10, 30, 60]);
}

#[test]
fn radius_larger_than_image() {
    let mut img = image(vec![10, 20, 30, 40], 2, 2, 1);
    box_blur_2d(&mut img, 5);
    // 11×11 window over a 2×2 image: each border pixel is reused many times
    let mut expect = Vec::new();
    for y in 0..2i64 {
        for x in 0..2i64 {
            let mut acc = 0i64;
            for i in -5..=5i64 {
                for j in -5..=5i64 {
                    let sx = (x + j).clamp(0, 1);
                    let sy = (y + i).clamp(0, 1);
                    acc += [10, 20, 30, 40][(sy * 2 + sx) as usize];
                }
            }
            expect.push((acc / 121) as u8);
        }
    }
    assert_eq!(img.buf_write, expect);
    let mut single = image(vec![7, 8, 9], 1, 1, 3);
    box_blur_1d(&mut single, 4);
    assert_eq!(single.buf_write, vec![7, 8, 9]);
}

#[test]
fn empty_image() {
    let mut img = image(vec![], 0, 0, 3);
    box_blur_1d(&mut img, 2);
    assert!(img.buf_write.is_empty());
    let mut wide = image(vec![], 5, 0, 4);
    box_blur_2d(&mut wide, 1);
    assert!(wide.buf_write.is_empty());
}

#[test]
fn uniform_image_is_fixed_point() {
    let color = [12, 200, 77, 255];
    let buf = uniform(5, 4, &color);
    let samples = vec![2147483648, 1058856961, 126928628, 3699106];
    for radius in 0..4 {
        let mut a = image(buf.clone(), 5, 4, 4);
        box_blur_1d(&mut a, radius);
        assert_eq!(a.buf_write, buf);
        let mut b = image(buf.clone(), 5, 4, 4);
        box_blur_2d(&mut b, radius);
        assert_eq!(b.buf_write, buf);
    }
    let mut c = image(buf.clone(), 5, 4, 4);
    gaussian_blur_1d(&mut c, &samples).unwrap();
    assert_eq!(c.buf_write, buf);
    let mut d = image(buf.clone(), 5, 4, 4);
    gaussian_blur_2d(&mut d, &samples).unwrap();
    assert_eq!(d.buf_write, buf);
}

#[test]
fn separable_and_full_blur_agree() {
    let buf = varied(9, 7, 3);
    let samples = vec![2147483648, 1500000000, 700000000, 200000000];
    let mut one = image(buf.clone(), 9, 7, 3);
    gaussian_blur_2d(&mut one, &samples).unwrap();
    let mut two = image(buf.clone(), 9, 7, 3);
    gaussian_blur_1d(&mut two, &samples).unwrap();
    let mut box_one = image(buf.clone(), 9, 7, 3);
    box_blur_2d(&mut box_one, 2);
    let mut box_two = image(buf.clone(), 9, 7, 3);
    box_blur_1d(&mut box_two, 2);
    for p in 0..buf.len() {
        let d = one.buf_write[p] as i32 - two.buf_write[p] as i32;
        assert!((0..=1).contains(&d), "{}", p);
        let d = box_one.buf_write[p] as i32 - box_two.buf_write[p] as i32;
        assert!((0..=1).contains(&d), "{}", p);
    }
}

#[test]
fn separable_pass_hands_over_first_pass() {
    let buf = varied(4, 3, 2);
    let mut img = image(buf.clone(), 4, 3, 2);
    box_blur_1d(&mut img, 1);
    let (row, _) = box_blur_kernel_1d(1);
    let mut mid = buf.clone();
    convolve_into(&buf, &mut mid, 4, 3, 2, &row);
    assert_eq!(img.buf_read, mid);
}

#[test]
fn rows_match_whole_convolution() {
    let buf = varied(6, 5, 3);
    let k = box_blur_kernel_2d(1);
    let mut whole = buf.clone();
    convolve_into(&buf, &mut whole, 6, 5, 3, &k);
    for y in 0..5u32 {
        let row = convolve_row(&buf, 6, 5, 3, &k, y);
        let start = (y * 6 * 3) as usize;
        assert_eq!(row, whole[start..start + 18].to_vec());
    }
}

#[test]
fn hand_over_copies_write_buffer() {
    let mut img = Image { buf_read: vec![1, 2, 3], buf_write: vec![4, 5, 6], width: 1, height: 1, channels: 3 };
    hand_over(&mut img);
    assert_eq!(img.buf_read, vec![4, 5, 6]);
}

#[test]
fn gaussian_blur_rejects_invalid_samples() {
    let buf = varied(3, 3, 3);
    let mut img = image(buf.clone(), 3, 3, 3);
    img.buf_write = vec![9; 27];
    assert_eq!(gaussian_blur_1d(&mut img, &vec![0, 1]), Err(KernelError::InvalidSamples));
    assert_eq!(gaussian_blur_2d(&mut img, &vec![]), Err(KernelError::InvalidSamples));
    assert_eq!(img.buf_read, buf);
    assert_eq!(img.buf_write, vec![9; 27]);
}

#[test]
fn gaussian_blur_small_exact() {
    // samples [2, 1] give the row [1, 2, 1] / 4
    let mut img = image(vec![0, 40, 80, 120], 4, 1, 1);
    gaussian_blur_1d(&mut img, &vec![2, 1]).unwrap();
    assert_eq!(img.buf_read, vec![10, 40, 80, 110]);
    assert_eq!(img.buf_write, vec![10, 40, 80, 110]);
}

#[test]
fn separable_rounding_gap_example() {
    // the row pass truncates 1/3 and 2/3 before the column pass sees them
    let mut one = image(vec![0, 0, 1, 2], 2, 2, 1);
    box_blur_2d(&mut one, 1);
    let mut two = image(vec![0, 0, 1, 2], 2, 2, 1);
    box_blur_1d(&mut two, 1);
    assert_eq!(one.buf_write, vec![0, 0, 0, 1]);
    assert_eq!(two.buf_write, vec![0, 0, 0, 0]);
}
