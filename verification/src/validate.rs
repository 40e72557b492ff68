//! Pixel bookkeeping for validating module poses: per-module blending,
//! difference images and side-by-side comparisons, and which mirror modules
//! get a warp-time flip.

use vstd::prelude::*;
use vstd::slice::slice_to_vec;

use crate::image::{lemma_pixel_index_bounds, pixel_index, GrayImage, RgbImage};
use crate::text::text_equals;

verus! {

/// What the warp decisions read of the focus bundle picked for a module.
#[derive(Debug, Clone, Copy, PartialEq, Eq, Structural)]
pub struct SelectedFocusBundle {
    pub has_extrinsics: bool,
    pub has_movable_mirror: bool,
    pub image_flip_x: bool,
}

/// Which mirror modules get an image flip at warp time (an experiment, off by
/// default).
#[derive(Debug, Clone, Copy, PartialEq, Eq, Structural)]
pub enum FlipExperiment {
    /// No module is flipped (named `None` in the setting's documentation).
    Off,
    /// Movable-mirror modules whose flip flag is false.
    FlagFalse,
    /// Movable-mirror modules whose flip flag is true.
    FlagTrue,
}

impl FlipExperiment {
    /// The experiment a setting selects: `"flag_false"`, `"flag_true"`, and
    /// anything else or nothing for none.
    pub fn from_setting(value: Option<&str>) -> (e: FlipExperiment)
        ensures
            e == (match value {
                Some(v) => if v@ == "flag_false"@ {
                    FlipExperiment::FlagFalse
                } else if v@ == "flag_true"@ {
                    FlipExperiment::FlagTrue
                } else {
                    FlipExperiment::Off
                },
                None => FlipExperiment::Off,
            }),
    {
        match value {
            Some(v) => if text_equals(v, "flag_false") {
                FlipExperiment::FlagFalse
            } else if text_equals(v, "flag_true") {
                FlipExperiment::FlagTrue
            } else {
                FlipExperiment::Off
            },
            None => FlipExperiment::Off,
        }
    }

    /// Whether the module whose pick is `sel` gets flipped: only modules with a
    /// movable mirror, and among those the ones whose flip flag the experiment
    /// names.
    pub fn applies_to(self, sel: &SelectedFocusBundle) -> (r: bool)
        ensures
            r == (sel.has_movable_mirror && match self {
                FlipExperiment::Off => false,
                FlipExperiment::FlagFalse => !sel.image_flip_x,
                FlipExperiment::FlagTrue => sel.image_flip_x,
            }),
    {
        if !sel.has_movable_mirror {
            return false;
        }
        match self {
            FlipExperiment::Off => false,
            FlipExperiment::FlagFalse => !sel.image_flip_x,
            FlipExperiment::FlagTrue => sel.image_flip_x,
        }
    }
}

/// The grey image formed by the first `w * h` bytes of `bytes`.
pub fn bytes_to_gray(bytes: &[u8], w: u32, h: u32) -> (img: GrayImage)
    requires
        w * h <= usize::MAX,
        w * h <= bytes@.len(),
    ensures
        img.wf(),
        img@.width == w,
        img@.height == h,
        img@.pixels == bytes@.subrange(0, w * h),
{
    match GrayImage::from_raw(w, h, slice_to_vec(bytes)) {
        Some(img) => img,
        None => {
            proof {
                assert(false);
            }
            GrayImage::new(0, 0)
        },
    }
}

/// Add every sample of `img` to the running sum at its position, and count it.
pub fn accumulate(acc: &mut [u64], w: &mut [u32], img: &GrayImage)
    requires
        img.wf(),
        old(acc)@.len() >= img@.pixels.len(),
        old(w)@.len() >= img@.pixels.len(),
        forall|i: int| 0 <= i < img@.pixels.len() ==> #[trigger] old(acc)@[i] + 255 <= u64::MAX,
        forall|i: int| 0 <= i < img@.pixels.len() ==> #[trigger] old(w)@[i] < u32::MAX,
    ensures
        final(acc)@.len() == old(acc)@.len(),
        final(w)@.len() == old(w)@.len(),
        forall|i: int|
            0 <= i < final(acc)@.len() ==> #[trigger] final(acc)@[i] == if i < img@.pixels.len() {
                old(acc)@[i] + img@.pixels[i]
            } else {
                old(acc)@[i] as int
            },
        forall|i: int|
            0 <= i < final(w)@.len() ==> #[trigger] final(w)@[i] == if i < img@.pixels.len() {
                old(w)@[i] + 1
            } else {
                old(w)@[i] as int
            },
{
    let px: &[u8] = img.as_raw();
    let n: usize = px.len();
    let ghost acc0 = acc@;
    let ghost w0 = w@;
    let mut i: usize = 0;
    while i < n
        invariant
            n == px@.len(),
            px@ == img@.pixels,
            acc@.len() == acc0.len(),
            w@.len() == w0.len(),
            n <= acc0.len(),
            n <= w0.len(),
            forall|k: int| 0 <= k < n ==> #[trigger] acc0[k] + 255 <= u64::MAX,
            forall|k: int| 0 <= k < n ==> #[trigger] w0[k] < u32::MAX,
            0 <= i <= n,
            forall|k: int| 0 <= k < i ==> #[trigger] acc@[k] == acc0[k] + px@[k],
            forall|k: int| i <= k < acc@.len() ==> #[trigger] acc@[k] == acc0[k],
            forall|k: int| 0 <= k < i ==> #[trigger] w@[k] == w0[k] + 1,
            forall|k: int| i <= k < w@.len() ==> #[trigger] w@[k] == w0[k],
        decreases n - i,
    {
        acc[i] = acc[i] + px[i] as u64;
        w[i] = w[i] + 1;
        i = i + 1;
    }
}

/// Add every non-zero sample of `img` to the running sum at its position, and
/// count it; zero samples carry no data and are skipped.
pub fn accumulate_masked(acc: &mut [u64], w: &mut [u32], img: &GrayImage)
    requires
        img.wf(),
        old(acc)@.len() >= img@.pixels.len(),
        old(w)@.len() >= img@.pixels.len(),
        forall|i: int| 0 <= i < img@.pixels.len() ==> #[trigger] old(acc)@[i] + 255 <= u64::MAX,
        forall|i: int| 0 <= i < img@.pixels.len() ==> #[trigger] old(w)@[i] < u32::MAX,
    ensures
        final(acc)@.len() == old(acc)@.len(),
        final(w)@.len() == old(w)@.len(),
        forall|i: int|
            0 <= i < final(acc)@.len() ==> #[trigger] final(acc)@[i] == if i < img@.pixels.len() {
                old(acc)@[i] + img@.pixels[i]
            } else {
                old(acc)@[i] as int
            },
        forall|i: int|
            0 <= i < final(w)@.len() ==> #[trigger] final(w)@[i] == if i < img@.pixels.len()
                && img@.pixels[i] != 0 {
                old(w)@[i] + 1
            } else {
                old(w)@[i] as int
            },
{
    let px: &[u8] = img.as_raw();
    let n: usize = px.len();
    let ghost acc0 = acc@;
    let ghost w0 = w@;
    let mut i: usize = 0;
    while i < n
        invariant
            n == px@.len(),
            px@ == img@.pixels,
            acc@.len() == acc0.len(),
            w@.len() == w0.len(),
            n <= acc0.len(),
            n <= w0.len(),
            forall|k: int| 0 <= k < n ==> #[trigger] acc0[k] + 255 <= u64::MAX,
            forall|k: int| 0 <= k < n ==> #[trigger] w0[k] < u32::MAX,
            0 <= i <= n,
            forall|k: int| 0 <= k < i ==> #[trigger] acc@[k] == acc0[k] + px@[k],
            forall|k: int| i <= k < acc@.len() ==> #[trigger] acc@[k] == acc0[k],
            forall|k: int| 0 <= k < i ==> #[trigger] w@[k] == if px@[k] != 0 { w0[k] + 1 } else { w0[k] as int },
            forall|k: int| i <= k < w@.len() ==> #[trigger] w@[k] == w0[k],
        decreases n - i,
    {
        let v: u8 = px[i];
        if v != 0 {
            acc[i] = acc[i] + v as u64;
            w[i] = w[i] + 1;
        }
        i = i + 1;
    }
}

/// `acc / weight` rounded to the nearest integer (halves up), capped at 255.
pub open spec fn blend_value(acc: int, weight: int) -> u8 {
    let r = (2 * acc + weight) / (2 * weight);
    if r > 255 { 255u8 } else { r as u8 }
}

/// Sample `i` of a blend normalized from `acc` and `weights`.
pub open spec fn blended_sample(acc: Seq<u64>, weights: Seq<u32>, i: int) -> u8 {
    if i < weights.len() && weights[i] > 0 {
        blend_value(acc[i] as int, weights[i] as int)
    } else {
        0u8
    }
}

/// Blending a single module (its non-zero samples added with a count of
/// one each, starting from nothing) gives back that module's image.
pub proof fn lemma_blend_of_one_image(pixels: Seq<u8>, acc: Seq<u64>, weights: Seq<u32>)
    requires
        acc.len() == pixels.len(),
        weights.len() == pixels.len(),
        forall|i: int| 0 <= i < pixels.len() ==> #[trigger] acc[i] == pixels[i],
        forall|i: int| 0 <= i < pixels.len() ==> #[trigger] weights[i] == if pixels[i] != 0 { 1u32 } else { 0u32 },
    ensures
        forall|i: int| 0 <= i < pixels.len() ==> #[trigger] blended_sample(acc, weights, i) == pixels[i],
{
    assert forall|i: int| 0 <= i < pixels.len() implies #[trigger] blended_sample(acc, weights, i) == pixels[i] by {
        if pixels[i] != 0 {
            assert(weights[i] == 1u32);
            assert(acc[i] == pixels[i]);
            let v = pixels[i] as int;
            assert((2 * v + 1) / 2 == v);
        }
    }
}

/// A module differenced with itself is zero everywhere.
pub proof fn lemma_diff_with_itself(p: u8)
    ensures
        diff_value(p, p) == 0,
{
}

/// Differencing does not depend on which image comes first; where both carry
/// data it is the distance between the two samples, and where either has
/// none it is zero.
pub proof fn lemma_diff_is_distance(pa: u8, pb: u8)
    ensures
        diff_value(pa, pb) == diff_value(pb, pa),
        pa != 0 && pb != 0 ==> diff_value(pa, pb) + (if pa <= pb { pa } else { pb }) == (if pa >= pb {
            pa
        } else {
            pb
        }),
        pa == 0 || pb == 0 ==> diff_value(pa, pb) == 0,
{
}

/// A blended sample is the mean of what was added, rounded to the nearest
/// integer: `weight` samples summing to `acc` give a value within half a step
/// of `acc / weight`.
pub proof fn lemma_blend_is_rounded_mean(acc: int, weight: int)
    requires
        weight > 0,
        0 <= acc <= 255 * weight,
    ensures
        2 * acc - weight < 2 * weight * blend_value(acc, weight) <= 2 * acc + weight,
{
    let r = (2 * acc + weight) / (2 * weight);
    vstd::arithmetic::div_mod::lemma_fundamental_div_mod(2 * acc + weight, 2 * weight);
    let q = (2 * acc + weight) % (2 * weight);
    assert(2 * acc + weight == (2 * weight) * r + q);
    assert(r <= 255) by (nonlinear_arith)
        requires
            2 * acc + weight == (2 * weight) * r + q,
            0 <= q,
            acc <= 255 * weight,
            weight > 0,
    ;
    assert(r >= 0) by (nonlinear_arith)
        requires
            2 * acc + weight == (2 * weight) * r + q,
            q < 2 * weight,
            acc >= 0,
            weight > 0,
    ;
    assert(blend_value(acc, weight) == r);
    assert(2 * acc - weight < 2 * weight * r <= 2 * acc + weight) by (nonlinear_arith)
        requires
            2 * acc + weight == (2 * weight) * r + q,
            0 <= q < 2 * weight,
    ;
}

/// `weight` equal samples `v` blend to `v`.
pub proof fn lemma_blend_of_equal_samples(v: int, weight: int)
    requires
        weight > 0,
        0 <= v <= 255,
    ensures
        blend_value(v * weight, weight) == v,
{
    assert(0 <= v * weight <= 255 * weight) by (nonlinear_arith)
        requires
            weight > 0,
            0 <= v <= 255,
    ;
    lemma_blend_is_rounded_mean(v * weight, weight);
    let r = blend_value(v * weight, weight) as int;
    assert(r == v) by (nonlinear_arith)
        requires
            2 * (v * weight) - weight < 2 * weight * r <= 2 * (v * weight) + weight,
            weight > 0,
    ;
}

/// Turn running sums and counts into the mean image: each position with a
/// count holds its rounded mean, capped at 255; the rest stay zero.
pub fn normalize_blend(acc: &[u64], weights: &[u32], width: u32, height: u32) -> (img: GrayImage)
    requires
        width * height <= usize::MAX,
        weights@.len() <= width * height,
        weights@.len() <= u32::MAX + 1,
        acc@.len() >= weights@.len(),
    ensures
        img.wf(),
        img@.width == width,
        img@.height == height,
        forall|i: int|
            0 <= i < img@.pixels.len() ==> #[trigger] img@.pixels[i] == blended_sample(acc@, weights@, i),
{
    let mut out: GrayImage = GrayImage::new(width, height);
    let n: usize = weights.len();
    let mut i: usize = 0;
    while i < n
        invariant
            out.wf(),
            out@.width == width,
            out@.height == height,
            out@.pixels.len() == width * height,
            n == weights@.len(),
            n <= width * height,
            acc@.len() >= n,
            0 <= i <= n,
            forall|k: int| 0 <= k < i ==> #[trigger] out@.pixels[k] == blended_sample(acc@, weights@, k),
            forall|k: int| i <= k < out@.pixels.len() ==> #[trigger] out@.pixels[k] == 0u8,
        decreases n - i,
    {
        let weight: u32 = weights[i];
        let v: u8 = if weight > 0 {
            let num: u128 = 2 * (acc[i] as u128) + weight as u128;
            let r: u128 = num / (2 * weight as u128);
            if r > 255 { 255u8 } else { r as u8 }
        } else {
            0u8
        };
        assert(width > 0);
        let x: usize = i % (width as usize);
        let y: usize = i / (width as usize);
        proof {
            vstd::arithmetic::div_mod::lemma_fundamental_div_mod(i as int, width as int);
            assert(i as int == y * width + x) by {
                vstd::arithmetic::mul::lemma_mul_is_commutative(y as int, width as int);
            }
            assert(y < height) by (nonlinear_arith)
                requires
                    i < width * height,
                    i == y * width + x,
                    0 <= x,
                    width > 0,
            ;
            lemma_pixel_index_bounds(x as int, y as int, width as int, height as int);
        }
        out.put_pixel(x as u32, y as u32, v);
        i = i + 1;
    }
    out
}

/// Difference image value: zero where either side has no data, otherwise
/// the absolute difference.
pub open spec fn diff_value(pa: u8, pb: u8) -> u8 {
    if pa == 0 || pb == 0 {
        0u8
    } else if pa >= pb {
        (pa - pb) as u8
    } else {
        (pb - pa) as u8
    }
}

/// Per-pixel absolute difference of `a` and the matching pixels of `b`, zero
/// where either has no data; sized like `a`.
pub fn abs_diff(a: &GrayImage, b: &GrayImage) -> (d: GrayImage)
    requires
        a.wf(),
        b.wf(),
        a@.width <= b@.width,
        a@.height <= b@.height,
    ensures
        d.wf(),
        d@.width == a@.width,
        d@.height == a@.height,
        forall|x: int, y: int|
            0 <= x < a@.width && 0 <= y < a@.height ==> #[trigger] d@.pixels[pixel_index(x, y, a@.width as int)]
                == diff_value(
                a@.pixels[pixel_index(x, y, a@.width as int)],
                b@.pixels[pixel_index(x, y, b@.width as int)],
            ),
{
    proof {
        GrayImage::lemma_wf(a);
        GrayImage::lemma_wf(b);
    }
    let w: u32 = a.width();
    let h: u32 = a.height();
    let mut out: GrayImage = GrayImage::new(w, h);
    let mut y: u32 = 0;
    while y < h
        invariant
            a.wf(),
            b.wf(),
            out.wf(),
            w == a@.width,
            h == a@.height,
            w <= b@.width,
            h <= b@.height,
            out@.width == w,
            out@.height == h,
            out@.pixels.len() == w * h,
            a@.pixels.len() == w * h,
            b@.pixels.len() == b@.width * b@.height,
            0 <= y <= h,
            forall|px: int, py: int|
                0 <= px < w && 0 <= py < y ==> #[trigger] out@.pixels[pixel_index(px, py, w as int)]
                    == diff_value(
                    a@.pixels[pixel_index(px, py, w as int)],
                    b@.pixels[pixel_index(px, py, b@.width as int)],
                ),
        decreases h - y,
    {
        let mut x: u32 = 0;
        while x < w
            invariant
                a.wf(),
                b.wf(),
                out.wf(),
                w == a@.width,
                h == a@.height,
                w <= b@.width,
                h <= b@.height,
                out@.width == w,
                out@.height == h,
                out@.pixels.len() == w * h,
                a@.pixels.len() == w * h,
                b@.pixels.len() == b@.width * b@.height,
                0 <= y < h,
                0 <= x <= w,
                forall|px: int, py: int|
                    0 <= px < w && 0 <= py < h && (py < y || (py == y && px < x))
                        ==> #[trigger] out@.pixels[pixel_index(px, py, w as int)] == diff_value(
                        a@.pixels[pixel_index(px, py, w as int)],
                        b@.pixels[pixel_index(px, py, b@.width as int)],
                    ),
            decreases w - x,
        {
            let pa: u8 = a.get_pixel(x, y);
            let pb: u8 = b.get_pixel(x, y);
            let v: u8 = if pa == 0 || pb == 0 {
                0u8
            } else if pa >= pb {
                pa - pb
            } else {
                pb - pa
            };
            let ghost before = out@.pixels;
            out.put_pixel(x, y, v);
            proof {
                GrayImage::lemma_wf(&out);
                assert forall|px: int, py: int|
                    0 <= px < w && 0 <= py < h && (py < y || (py == y && px < x + 1))
                        implies #[trigger] out@.pixels[pixel_index(px, py, w as int)] == diff_value(
                        a@.pixels[pixel_index(px, py, w as int)],
                        b@.pixels[pixel_index(px, py, b@.width as int)],
                    ) by {
                    lemma_pixel_index_bounds(px, py, w as int, h as int);
                    lemma_pixel_index_bounds(x as int, y as int, w as int, h as int);
                    lemma_pixel_index_bounds(px, py, b@.width as int, b@.height as int);
                    if px != x || py != y {
                        assert(pixel_index(px, py, w as int) != pixel_index(x as int, y as int, w as int));
                    }
                }
            }
            x = x + 1;
        }
        y = y + 1;
    }
    out
}

/// A grey sample as an RGB pixel.
pub open spec fn grey_rgb(v: u8) -> [u8; 3] {
    [v, v, v]
}

/// `left` and `right` next to each other in one RGB image twice as wide as
/// `left`; `right` is read over `left`'s size.
pub fn side_by_side(left: &GrayImage, right: &GrayImage) -> (out: RgbImage)
    requires
        left.wf(),
        right.wf(),
        left@.width <= right@.width,
        left@.height <= right@.height,
        left@.width * 2 <= u32::MAX,
        left@.width * 2 * left@.height <= usize::MAX,
    ensures
        out.wf(),
        out@.width == left@.width * 2,
        out@.height == left@.height,
        forall|x: int, y: int|
            0 <= x < left@.width && 0 <= y < left@.height ==> #[trigger] out@.pixels[pixel_index(
                x,
                y,
                (left@.width * 2) as int,
            )] == grey_rgb(left@.pixels[pixel_index(x, y, left@.width as int)]),
        forall|x: int, y: int|
            0 <= x < left@.width && 0 <= y < left@.height ==> #[trigger] out@.pixels[pixel_index(
                x + left@.width,
                y,
                (left@.width * 2) as int,
            )] == grey_rgb(right@.pixels[pixel_index(x, y, right@.width as int)]),
{
    proof {
        GrayImage::lemma_wf(left);
        GrayImage::lemma_wf(right);
    }
    let w: u32 = left.width();
    let h: u32 = left.height();
    let ww: u32 = w * 2;
    let mut rgb: RgbImage = RgbImage::new(ww, h);
    proof {
        RgbImage::lemma_wf(&rgb);
    }
    let mut y: u32 = 0;
    while y < h
        invariant
            left.wf(),
            right.wf(),
            rgb.wf(),
            w == left@.width,
            h == left@.height,
            ww == w * 2,
            w <= right@.width,
            h <= right@.height,
            rgb@.width == ww,
            rgb@.height == h,
            rgb@.pixels.len() == ww * h,
            left@.pixels.len() == w * h,
            right@.pixels.len() == right@.width * right@.height,
            0 <= y <= h,
            forall|px: int, py: int|
                0 <= px < w && 0 <= py < y ==> #[trigger] rgb@.pixels[pixel_index(px, py, ww as int)]
                    == grey_rgb(left@.pixels[pixel_index(px, py, w as int)]),
            forall|px: int, py: int|
                0 <= px < w && 0 <= py < y ==> #[trigger] rgb@.pixels[pixel_index(px + w, py, ww as int)]
                    == grey_rgb(right@.pixels[pixel_index(px, py, right@.width as int)]),
        decreases h - y,
    {
        let mut x: u32 = 0;
        while x < w
            invariant
                left.wf(),
                right.wf(),
                rgb.wf(),
                w == left@.width,
                h == left@.height,
                ww == w * 2,
                w <= right@.width,
                h <= right@.height,
                rgb@.width == ww,
                rgb@.height == h,
                rgb@.pixels.len() == ww * h,
                left@.pixels.len() == w * h,
                right@.pixels.len() == right@.width * right@.height,
                0 <= y < h,
                0 <= x <= w,
                forall|px: int, py: int|
                    0 <= px < w && 0 <= py < h && (py < y || (py == y && px < x))
                        ==> #[trigger] rgb@.pixels[pixel_index(px, py, ww as int)] == grey_rgb(
                        left@.pixels[pixel_index(px, py, w as int)],
                    ),
                forall|px: int, py: int|
                    0 <= px < w && 0 <= py < h && (py < y || (py == y && px < x))
                        ==> #[trigger] rgb@.pixels[pixel_index(px + w, py, ww as int)] == grey_rgb(
                        right@.pixels[pixel_index(px, py, right@.width as int)],
                    ),
            decreases w - x,
        {
            let l: u8 = left.get_pixel(x, y);
            let ghost before = rgb@.pixels;
            rgb.put_pixel(x, y, [l, l, l]);
            let r: u8 = right.get_pixel(x, y);
            let ghost middle = rgb@.pixels;
            rgb.put_pixel(x + w, y, [r, r, r]);
            proof {
                RgbImage::lemma_wf(&rgb);
                lemma_pixel_index_bounds(x as int, y as int, ww as int, h as int);
                lemma_pixel_index_bounds((x + w) as int, y as int, ww as int, h as int);
                assert forall|px: int, py: int|
                    0 <= px < w && 0 <= py < h && (py < y || (py == y && px < x + 1))
                        implies #[trigger] rgb@.pixels[pixel_index(px, py, ww as int)] == grey_rgb(
                        left@.pixels[pixel_index(px, py, w as int)],
                    ) by {
                    lemma_pixel_index_bounds(px, py, ww as int, h as int);
                    lemma_pixel_index_bounds(px, py, w as int, h as int);
                    if px != x || py != y {
                        assert(pixel_index(px, py, ww as int) != pixel_index(x as int, y as int, ww as int));
                    }
                    assert(pixel_index(px, py, ww as int) != pixel_index((x + w) as int, y as int, ww as int));
                }
                assert forall|px: int, py: int|
                    0 <= px < w && 0 <= py < h && (py < y || (py == y && px < x + 1))
                        implies #[trigger] rgb@.pixels[pixel_index(px + w, py, ww as int)] == grey_rgb(
                        right@.pixels[pixel_index(px, py, right@.width as int)],
                    ) by {
                    lemma_pixel_index_bounds(px + w, py, ww as int, h as int);
                    lemma_pixel_index_bounds(px, py, right@.width as int, right@.height as int);
                    if px != x || py != y {
                        assert(pixel_index(px + w, py, ww as int) != pixel_index((x + w) as int, y as int, ww as int));
                    }
                    assert(pixel_index(px + w, py, ww as int) != pixel_index(x as int, y as int, ww as int));
                }
            }
            x = x + 1;
        }
        y = y + 1;
    }
    rgb
}

} // verus!
