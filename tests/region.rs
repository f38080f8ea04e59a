use filters::{gaussian_1d, gaussian_2d, paste, KernelError, RgbBuffer};

#[test]
fn paste_writes_patch_only() {
    let canvas = vec![0u8; 3 * 3 * 3];
    let patch = vec![1, 2, 3, 4, 5, 6];
    let out = paste(&canvas, 3, 3, &patch, 2, 1, 1, 2);
    let mut expect = vec![0u8; 27];
    expect[21..27].copy_from_slice(&[1, 2, 3, 4, 5, 6]);
    assert_eq!(out, expect);
}

#[test]
fn gaussian_1d_into_region() {
    let img = RgbBuffer { width: 3, height: 1, samples: vec![0, 0, 0, 40, 80, 120, 0, 0, 0] };
    let mut buf = RgbBuffer { width: 4, height: 2, samples: vec![7; 24] };
    gaussian_1d(&img, 1, 1, &mut buf, &vec![2, 1]).unwrap();
    // row [1, 2, 1] / 4: the centre keeps half, each side gets a quarter
    let mut expect = vec![7u8; 24];
    expect[15..24].copy_from_slice(&[10, 20, 30, 20, 40, 60, 10, 20, 30]);
    assert_eq!(buf.samples, expect);
}

#[test]
fn gaussian_2d_into_region() {
    let img = RgbBuffer { width: 1, height: 3, samples: vec![0, 0, 0, 40, 80, 120, 0, 0, 0] };
    let mut buf = RgbBuffer { width: 2, height: 3, samples: vec![5; 18] };
    gaussian_2d(&img, 0, 0, &mut buf, &vec![2, 1]).unwrap();
    let expect = vec![10, 20, 30, 5, 5, 5, 20, 40, 60, 5, 5, 5, 10, 20, 30, 5, 5, 5];
    assert_eq!(buf.samples, expect);
}

#[test]
fn region_blur_rejects_invalid_samples() {
    let img = RgbBuffer { width: 1, height: 1, samples: vec![1, 2, 3] };
    let mut buf = RgbBuffer { width: 1, height: 1, samples: vec![4, 5, 6] };
    assert_eq!(gaussian_1d(&img, 0, 0, &mut buf, &vec![0]), Err(KernelError::InvalidSamples));
    assert_eq!(gaussian_2d(&img, 0, 0, &mut buf, &vec![]), Err(KernelError::InvalidSamples));
    assert_eq!(buf.samples, vec![4, 5, 6]);
}
