use lri_rs::image::GrayImage;
use lri_rs::raster::overlap_sums;
use lri_rs::validate::{
    abs_diff, accumulate, accumulate_masked, bytes_to_gray, normalize_blend, side_by_side,
    FlipExperiment, SelectedFocusBundle,
};

fn solid_image(w: u32, h: u32, value: u8) -> GrayImage {
    GrayImage::from_raw(w, h, vec![value; (w * h) as usize]).unwrap()
}

fn image_from_fn(w: u32, h: u32, f: impl Fn(u32, u32) -> u8) -> GrayImage {
    let mut data = Vec::new();
    for y in 0..h {
        for x in 0..w {
            data.push(f(x, y));
        }
    }
    GrayImage::from_raw(w, h, data).unwrap()
}

/// (mean absolute difference, NCC, overlap) the way the validator scores a pair.
fn compare(a: &GrayImage, b: &GrayImage) -> (f64, f64, u32) {
    let s = overlap_sums(a.as_raw(), b.as_raw());
    if s.pixels == 0 {
        return (f64::NAN, f64::NAN, 0);
    }
    let nf = s.pixels as f64;
    let (sa, sb) = (s.sum_a as f64, s.sum_b as f64);
    let cov = s.sum_ab as f64 - sa * sb / nf;
    let var_a = s.sum_aa as f64 - sa * sa / nf;
    let var_b = s.sum_bb as f64 - sb * sb / nf;
    let ncc = if var_a > 1e-6 && var_b > 1e-6 {
        cov / (var_a.sqrt() * var_b.sqrt())
    } else {
        f64::NAN
    };
    (s.abs_diff as f64 / nf, ncc, s.pixels)
}

#[test]
fn compare_overlap_identical_images() {
    let a = image_from_fn(16, 16, |x, y| ((x + y) % 64) as u8 + 32);
    let (mae, ncc, n) = compare(&a, &a);
    assert_eq!(n, 256);
    assert!(mae.abs() < 1e-9);
    assert!((ncc - 1.0).abs() < 1e-9);
}

#[test]
fn compare_overlap_empty_when_masked_out() {
    let a = solid_image(4, 4, 0);
    let b = solid_image(4, 4, 100);
    let (mae, ncc, n) = compare(&a, &b);
    assert_eq!(n, 0);
    assert!(mae.is_nan());
    assert!(ncc.is_nan());
}

#[test]
fn normalize_blend_averages_accumulator() {
    let acc = vec![100u64, 200, 0, 400];
    let weights = vec![1u32, 2, 0, 4];
    let img = normalize_blend(&acc, &weights, 2, 2);
    assert_eq!(img.get_pixel(0, 0), 100);
    assert_eq!(img.get_pixel(1, 0), 100);
    assert_eq!(img.get_pixel(0, 1), 0);
    assert_eq!(img.get_pixel(1, 1), 100);
}

#[test]
fn abs_diff_zero_on_equal_nonzero_pixels() {
    let a = solid_image(3, 3, 77);
    let diff = abs_diff(&a, &a);
    assert_eq!(diff.get_pixel(1, 1), 0);
}

#[test]
fn normalize_blend_rounds_halves_up_and_caps() {
    let acc = vec![1u64, 5, 1000, 7];
    let weights = vec![2u32, 2, 1, 3];
    let img = normalize_blend(&acc, &weights, 3, 2);
    assert_eq!(img.as_raw(), &[1u8, 3, 255, 2, 0, 0][..]);
}

#[test]
fn abs_diff_masks_missing_data() {
    let a = GrayImage::from_raw(3, 1, vec![10, 0, 200]).unwrap();
    let b = GrayImage::from_raw(4, 1, vec![30, 50, 0, 99]).unwrap();
    let d = abs_diff(&a, &b);
    assert_eq!((d.width(), d.height()), (3, 1));
    assert_eq!(d.as_raw(), &[20u8, 0, 0][..]);
}

#[test]
fn accumulate_counts_every_pixel_and_masked_skips_zeros() {
    let img = GrayImage::from_raw(2, 2, vec![0, 10, 20, 0]).unwrap();
    let mut acc = vec![1u64; 5];
    let mut w = vec![0u32; 5];
    accumulate(&mut acc, &mut w, &img);
    assert_eq!(acc, vec![1, 11, 21, 1, 1]);
    assert_eq!(w, vec![1, 1, 1, 1, 0]);
    accumulate_masked(&mut acc, &mut w, &img);
    assert_eq!(acc, vec![1, 21, 41, 1, 1]);
    assert_eq!(w, vec![1, 2, 2, 1, 0]);
}

#[test]
fn blend_of_one_module_is_that_module() {
    let img = GrayImage::from_raw(3, 2, vec![9, 0, 255, 1, 2, 3]).unwrap();
    let mut acc = vec![0u64; 6];
    let mut w = vec![0u32; 6];
    accumulate_masked(&mut acc, &mut w, &img);
    let out = normalize_blend(&acc, &w, 3, 2);
    assert_eq!(out.as_raw(), img.as_raw());
}

#[test]
fn bytes_to_gray_uses_leading_bytes() {
    let img = bytes_to_gray(&[1, 2, 3, 4, 5, 6, 7], 3, 2);
    assert_eq!(img.as_raw(), &[1u8, 2, 3, 4, 5, 6][..]);
    assert_eq!(img.get_pixel(2, 1), 6);
}

#[test]
fn side_by_side_places_left_then_right() {
    let left = GrayImage::from_raw(2, 1, vec![1, 2]).unwrap();
    let right = GrayImage::from_raw(2, 1, vec![3, 4]).unwrap();
    let rgb = side_by_side(&left, &right);
    assert_eq!((rgb.width(), rgb.height()), (4, 1));
    assert_eq!(rgb.to_raw(), vec![1, 1, 1, 2, 2, 2, 3, 3, 3, 4, 4, 4]);
}

#[test]
fn flip_experiment_only_touches_movable_mirrors() {
    let fixed = SelectedFocusBundle { has_extrinsics: true, has_movable_mirror: false, image_flip_x: true };
    let flagged = SelectedFocusBundle { has_extrinsics: true, has_movable_mirror: true, image_flip_x: true };
    let unflagged = SelectedFocusBundle { has_extrinsics: true, has_movable_mirror: true, image_flip_x: false };
    assert!(!FlipExperiment::FlagTrue.applies_to(&fixed));
    assert!(FlipExperiment::FlagTrue.applies_to(&flagged));
    assert!(!FlipExperiment::FlagTrue.applies_to(&unflagged));
    assert!(FlipExperiment::FlagFalse.applies_to(&unflagged));
    assert!(!FlipExperiment::FlagFalse.applies_to(&flagged));
    assert!(!FlipExperiment::Off.applies_to(&flagged));
}

#[test]
fn flip_experiment_setting_parses() {
    assert_eq!(FlipExperiment::from_setting(Some("flag_false")), FlipExperiment::FlagFalse);
    assert_eq!(FlipExperiment::from_setting(Some("flag_true")), FlipExperiment::FlagTrue);
    assert_eq!(FlipExperiment::from_setting(Some("flag")), FlipExperiment::Off);
    assert_eq!(FlipExperiment::from_setting(None), FlipExperiment::Off);
}
