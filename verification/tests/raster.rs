use lri_rs::raster::{overlap_sums, OverlapSums};

/// Mean absolute difference and zero-mean NCC from the exact sums, with the
/// same cut-offs the scorer uses.
fn scores(s: &OverlapSums) -> (u32, f64, f64) {
    if s.pixels == 0 {
        return (0, f64::NAN, f64::NAN);
    }
    let nf = s.pixels as f64;
    let (sa, sb) = (s.sum_a as f64, s.sum_b as f64);
    let cov = s.sum_ab as f64 - sa * sb / nf;
    let var_a = s.sum_aa as f64 - sa * sa / nf;
    let var_b = s.sum_bb as f64 - sb * sb / nf;
    let ncc = if var_a < 1e-6 || var_b < 1e-6 {
        f64::NAN
    } else {
        cov / (var_a.sqrt() * var_b.sqrt())
    };
    (s.pixels, s.abs_diff as f64 / nf, ncc)
}

#[test]
fn identical_buffers_correlate_perfectly() {
    let a = [10u8, 40, 90, 160];
    let (pixels, mae, ncc) = scores(&overlap_sums(&a, &a));
    assert_eq!(pixels, 4);
    assert!(mae.abs() < 1e-9);
    assert!((ncc - 1.0).abs() < 1e-9);
}

#[test]
fn inverted_buffers_correlate_negatively() {
    let a = [10u8, 40, 90, 160];
    let b = [160u8, 90, 40, 10];
    assert!(scores(&overlap_sums(&a, &b)).2 < -0.9);
}

#[test]
fn zeros_are_excluded_from_the_overlap() {
    let a = [0u8, 40, 90, 0];
    let b = [77u8, 40, 90, 12];
    assert_eq!(overlap_sums(&a, &b).pixels, 2);
}

#[test]
fn no_overlap_is_nan_not_zero() {
    let (pixels, _, ncc) = scores(&overlap_sums(&[0u8, 0], &[5u8, 9]));
    assert_eq!(pixels, 0);
    assert!(ncc.is_nan());
}

#[test]
fn flat_input_has_no_defined_correlation() {
    let flat = [50u8; 4];
    let vary = [10u8, 40, 90, 160];
    assert!(scores(&overlap_sums(&flat, &vary)).2.is_nan());
}

#[test]
fn ncc_identical_vectors() {
    let v = vec![10u8, 20, 30, 40];
    let n = scores(&overlap_sums(&v, &v)).2;
    assert!((n - 1.0).abs() < 1e-9);
}

#[test]
fn overlap_sums_are_exact() {
    let a = [3u8, 0, 200, 7];
    let b = [5u8, 9, 100, 0];
    assert_eq!(
        overlap_sums(&a, &b),
        OverlapSums {
            pixels: 2,
            abs_diff: 102,
            sum_a: 203,
            sum_b: 105,
            sum_aa: 40009,
            sum_bb: 10025,
            sum_ab: 20015,
        }
    );
}

#[test]
fn overlap_is_symmetric() {
    let a = [3u8, 0, 200, 7, 50];
    let b = [5u8, 9, 100, 0, 60];
    let ab = overlap_sums(&a, &b);
    let ba = overlap_sums(&b, &a);
    assert_eq!(ab.pixels, ba.pixels);
    assert_eq!(ab.abs_diff, ba.abs_diff);
    assert_eq!((ab.sum_a, ab.sum_aa), (ba.sum_b, ba.sum_bb));
    assert_eq!(ab.sum_ab, ba.sum_ab);
}
