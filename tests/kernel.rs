use filters::{
    box_blur_kernel_1d, box_blur_kernel_2d, gaussian_blur_kernel_1d, gaussian_blur_kernel_2d,
    gaussian_kernel_1d, gaussian_kernel_2d, sobel_2d, Kernel, KernelError, SAMPLE_ONE,
};

/// Fixed-point samples of the bell curve of `sigma`, at distances
/// `0..=3 * ceil(sigma)`.
fn samples_for(sigma: f64) -> Vec<u32> {
    let radius = sigma.ceil() as usize * 3;
    (0..=radius)
        .map(|d| ((-((d * d) as f64) / (2.0 * sigma * sigma)).exp() * SAMPLE_ONE as f64).round() as u32)
        .collect()
}

fn cells(k: &Kernel) -> Vec<i64> {
    let mut cells = Vec::new();
    for i in 0..k.rows {
        for j in 0..k.cols {
            cells.push(k.weight(i, j));
        }
    }
    cells
}

fn weight(k: &Kernel, i: usize, j: usize) -> f64 {
    k.weight(i, j) as f64 / k.scale as f64
}

fn weight_total(k: &Kernel) -> f64 {
    cells(k).iter().map(|w| *w as f64).sum::<f64>() / k.scale as f64
}

fn close(expect: f64, actual: f64, epsilon: f64) -> bool {
    let diff = (expect - actual).abs();
    diff <= epsilon || diff <= f32::EPSILON as f64 * expect.abs().max(actual.abs())
}

#[test]
fn valid_gaussian_1d() {
    let expect: [[f64; 7]; 1] = [[
        0.00081721, 0.02804152, 0.23392642, 0.47442967, 0.23392642, 0.02804152, 0.00081721,
    ]];
    let (row, _) = gaussian_blur_kernel_1d(&samples_for(0.84089642)).unwrap();
    assert_eq!((row.rows, row.cols), (1, 7));
    for i in 0..row.rows {
        for j in 0..row.cols {
            assert!(close(expect[i][j], weight(&row, i, j), 1e-8), "{} {}", i, j);
        }
    }
}

#[test]
fn valid_gaussian_2d() {
    let expect: [[f64; 7]; 7] = [
        [0.00000066, 0.00002291, 0.00019116, 0.00038771, 0.00019116, 0.00002291, 0.00000066],
        [0.00002291, 0.00078632, 0.00655965, 0.01330372, 0.00655965, 0.00078632, 0.00002291],
        [0.00019116, 0.00655965, 0.05472157, 0.11098163, 0.05472157, 0.00655965, 0.00019116],
        [0.00038771, 0.01330372, 0.11098163, 0.22508351, 0.11098163, 0.01330372, 0.00038771],
        [0.00019116, 0.00655965, 0.05472157, 0.11098163, 0.05472157, 0.00655965, 0.00019116],
        [0.00002291, 0.00078632, 0.00655965, 0.01330372, 0.00655965, 0.00078632, 0.00002291],
        [0.00000066, 0.00002291, 0.00019116, 0.00038771, 0.00019116, 0.00002291, 0.00000066],
    ];
    let k = gaussian_blur_kernel_2d(&samples_for(0.84089642)).unwrap();
    assert_eq!((k.rows, k.cols), (7, 7));
    for i in 0..7 {
        for j in 0..7 {
            assert!(close(expect[i][j], weight(&k, i, j), 1e-8), "{} {}", i, j);
        }
    }
}

#[test]
fn valid_box_blur_1d() {
    for radius in 1..10 {
        let (kernel_x, kernel_y) = box_blur_kernel_1d(radius);
        assert_eq!((kernel_x.rows, kernel_x.cols), (1, 2 * radius + 1));
        assert_eq!((kernel_y.rows, kernel_y.cols), (2 * radius + 1, 1));

        let expect = weight_total(&kernel_x) / cells(&kernel_x).len() as f64;
        for j in 0..kernel_x.cols {
            assert!(close(expect, weight(&kernel_x, 0, j), f64::EPSILON));
        }

        let expect = weight_total(&kernel_y) / cells(&kernel_y).len() as f64;
        for i in 0..kernel_y.rows {
            assert!(close(expect, weight(&kernel_y, i, 0), f64::EPSILON));
        }
    }
}

#[test]
fn valid_box_blur_2d() {
    for radius in 1..10 {
        let kernel = box_blur_kernel_2d(radius);
        let expect = weight_total(&kernel) / cells(&kernel).len() as f64;
        for i in 0..kernel.rows {
            for j in 0..kernel.cols {
                assert!(close(expect, weight(&kernel, i, j), f64::EPSILON));
            }
        }
    }
}

#[test]
fn valid_sobel2d() {
    let expect_x: [[f64; 3]; 3] = [[-1.0, 0.0, 1.0], [-2.0, 0.0, 2.0], [-1.0, 0.0, 1.0]];
    let expect_y: [[f64; 3]; 3] = [[1.0, 2.0, 1.0], [0.0, 0.0, 0.0], [-1.0, -2.0, -1.0]];

    let (sobel2d_x, sobel2d_y) = sobel_2d();

    for i in 0..3 {
        for j in 0..3 {
            assert_eq!(expect_x[i][j], weight(&sobel2d_x, i, j));
            assert_eq!(expect_y[i][j], weight(&sobel2d_y, i, j));
        }
    }
}

#[test]
fn box_weights_are_one_over_count() {
    let (row, col) = box_blur_kernel_1d(2);
    assert_eq!(cells(&row), vec![1; 5]);
    assert_eq!(row.scale, 5);
    assert_eq!(cells(&col), vec![1; 5]);
    assert_eq!(col.scale, 5);
    let square = box_blur_kernel_2d(2);
    assert_eq!((square.rows, square.cols), (5, 5));
    assert_eq!(cells(&square), vec![1; 25]);
    assert_eq!(square.scale, 25);
    let single = box_blur_kernel_2d(0);
    assert_eq!((single.rows, single.cols, single.scale), (1, 1, 1));
}

#[test]
fn gaussian_kernels_sum_to_one() {
    for sigma in [0.3, 0.84089642, 1.0, 2.5, 4.0] {
        let samples = samples_for(sigma);
        let row = gaussian_kernel_1d(&samples).unwrap();
        assert_eq!(cells(&row).iter().map(|w| *w as u128).sum::<u128>(), row.scale);
        assert!((weight_total(&row) - 1.0).abs() <= 1e-8);
        let square = gaussian_kernel_2d(&samples).unwrap();
        assert_eq!(cells(&square).iter().map(|w| *w as u128).sum::<u128>(), square.scale);
        assert!((weight_total(&square) - 1.0).abs() <= 1e-8);
    }
}

#[test]
fn gaussian_kernels_are_symmetric() {
    let samples = samples_for(1.7);
    let row = gaussian_kernel_1d(&samples).unwrap();
    let n = row.cols;
    assert_eq!(n, 13);
    for t in 0..n {
        assert_eq!(row.weight(0, t), row.weight(0, n - 1 - t));
    }
    let square = gaussian_kernel_2d(&samples).unwrap();
    for i in 0..n {
        for j in 0..n {
            assert_eq!(square.weight(i, j), square.weight(j, i));
        }
    }
}

#[test]
fn gaussian_row_mirrors_samples() {
    let row = gaussian_kernel_1d(&vec![8, 4, 1]).unwrap();
    assert_eq!(cells(&row), vec![1, 4, 8, 4, 1]);
    assert_eq!(row.scale, 18);
    let (r, c) = gaussian_blur_kernel_1d(&vec![8, 4, 1]).unwrap();
    assert_eq!((r.rows, r.cols, c.rows, c.cols), (1, 5, 5, 1));
    assert_eq!(cells(&c), cells(&r));
    let square = gaussian_kernel_2d(&vec![3, 1]).unwrap();
    assert_eq!(cells(&square), vec![1, 3, 1, 3, 9, 3, 1, 3, 1]);
    assert_eq!(square.scale, 25);
}

#[test]
fn invalid_samples_are_rejected() {
    let too_large = vec![SAMPLE_ONE, SAMPLE_ONE + 1];
    for samples in [vec![], vec![0, 5], too_large] {
        assert_eq!(gaussian_kernel_1d(&samples).err(), Some(KernelError::InvalidSamples));
        assert_eq!(gaussian_kernel_2d(&samples).err(), Some(KernelError::InvalidSamples));
        assert!(gaussian_blur_kernel_1d(&samples).is_err());
        assert!(gaussian_blur_kernel_2d(&samples).is_err());
    }
}
