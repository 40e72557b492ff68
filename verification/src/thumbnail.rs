//! Preview sizing: how far to step through a sensor frame for a small preview.

use vstd::prelude::*;

use crate::codec::{
    base64_encoded, base64_standard, encode_png8, png_encoded, png_samples, PngColor, PngError,
};
use crate::types::{camera_for_name, camera_name, lemma_camera_names_distinct, CameraId};

verus! {

/// The module named `name` (`"A1"` to `"C6"`), or `None` for any other text.
pub fn parse_camera_id(name: &str) -> (res: Option<CameraId>)
    ensures
        res == camera_for_name(name@),
{
    let len: usize = name.unicode_len();
    if len != 2 {
        assert forall|c: CameraId| camera_name(c) != name@ by {
            assert(camera_name(c).len() == 2);
        }
        return None;
    }
    let row: char = name.get_char(0);
    let idx: char = name.get_char(1);
    let res: Option<CameraId> = if row == 'A' {
        if idx == '1' {
            Some(CameraId::A1)
        } else if idx == '2' {
            Some(CameraId::A2)
        } else if idx == '3' {
            Some(CameraId::A3)
        } else if idx == '4' {
            Some(CameraId::A4)
        } else if idx == '5' {
            Some(CameraId::A5)
        } else {
            None
        }
    } else if row == 'B' {
        if idx == '1' {
            Some(CameraId::B1)
        } else if idx == '2' {
            Some(CameraId::B2)
        } else if idx == '3' {
            Some(CameraId::B3)
        } else if idx == '4' {
            Some(CameraId::B4)
        } else if idx == '5' {
            Some(CameraId::B5)
        } else {
            None
        }
    } else if row == 'C' {
        if idx == '1' {
            Some(CameraId::C1)
        } else if idx == '2' {
            Some(CameraId::C2)
        } else if idx == '3' {
            Some(CameraId::C3)
        } else if idx == '4' {
            Some(CameraId::C4)
        } else if idx == '5' {
            Some(CameraId::C5)
        } else if idx == '6' {
            Some(CameraId::C6)
        } else {
            None
        }
    } else {
        None
    };
    proof {
        match res {
            Some(c) => {
                assert(camera_name(c) =~= name@);
                let d = choose|d: CameraId| camera_name(d) == name@;
                lemma_camera_names_distinct(c, d);
            },
            None => {
                assert forall|c: CameraId| camera_name(c) != name@ by {
                    if camera_name(c) == name@ {
                        assert(camera_name(c)[0] == row && camera_name(c)[1] == idx);
                    }
                }
            },
        }
    }
    res
}

/// The modules named among the first `n` of `names`, in order; names that
/// are not module names are skipped.
pub open spec fn named_cameras(names: Seq<String>, n: int) -> Seq<CameraId>
    decreases n,
{
    if n <= 0 {
        seq![]
    } else {
        match camera_for_name(names[n - 1]@) {
            Some(c) => named_cameras(names, n - 1).push(c),
            None => named_cameras(names, n - 1),
        }
    }
}

/// The modules a list of names asks for, skipping names of no module.
pub fn parse_camera_ids(names: &[String]) -> (ids: Vec<CameraId>)
    ensures
        ids@ == named_cameras(names@, names@.len() as int),
{
    let mut ids: Vec<CameraId> = Vec::new();
    let mut i: usize = 0;
    while i < names.len()
        invariant
            0 <= i <= names@.len(),
            ids@ == named_cameras(names@, i as int),
        decreases names@.len() - i,
    {
        if let Some(c) = parse_camera_id(names[i].as_str()) {
            ids.push(c);
        }
        i = i + 1;
    }
    ids
}

/// A PNG stream as a `data:` URL: the PNG media-type prefix followed by the
/// standard padded base64 of the stream.
pub fn png_data_url(png: &[u8]) -> (url: String)
    requires
        4 * ((png@.len() + 2) / 3) <= usize::MAX,
    ensures
        url@ == "data:image/png;base64,"@ + base64_encoded(png@),
{
    let mut url: String = String::from_str("data:image/png;base64,");
    let encoded: String = base64_standard(png);
    url.append(encoded.as_str());
    url
}

/// Encode an 8-bit preview as PNG.
pub fn encode_png(width: u32, height: u32, data: &[u8], color: PngColor) -> (res: Result<Vec<u8>, PngError>)
    requires
        width * height * 4 + height <= usize::MAX,
    ensures
        match png_encoded(width, height, color, data@) {
            Some(b) => res matches Ok(v) && v@ == b,
            None => res == Err::<Vec<u8>, PngError>(PngError::Encode),
        },
        (width == 0 || height == 0 || data@.len() != width * height * png_samples(color)) ==> res
            == Err::<Vec<u8>, PngError>(PngError::Encode),
{
    match encode_png8(width, height, color, data) {
        Some(b) => Ok(b),
        None => Err(PngError::Encode),
    }
}

/// `a / b` rounded up.
pub open spec fn div_ceil(a: nat, b: nat) -> nat {
    a / b + if a % b != 0 { 1nat } else { 0nat }
}

/// Sampling step that brings the longer side of a `width`×`height` frame down
/// to at most `max_side`, never below one. The longer side is taken as a `u32`,
/// truncating as the conversion does.
pub open spec fn subsample_step_spec(width: usize, height: usize, max_side: u32) -> nat {
    let longer = #[verifier::truncate] ((if width >= height { width } else { height }) as u32);
    let steps = ((longer + max_side - 1) / (max_side as int)) as nat;
    if steps >= 1 { steps } else { 1 }
}

/// Choose the sampling step for a preview whose longer side is at most `max_side`.
pub fn subsample_step(width: usize, height: usize, max_side: u32) -> (step: usize)
    requires
        max_side > 0,
        #[verifier::truncate] ((if width >= height { width } else { height }) as u32) + max_side <= u32::MAX,
    ensures
        step == subsample_step_spec(width, height, max_side),
        step >= 1,
{
    let longer: usize = if width >= height { width } else { height };
    let max_dim: u32 = #[verifier::truncate] (longer as u32);
    let steps: u32 = (max_dim + max_side - 1) / max_side;
    let s: u32 = if steps >= 1 { steps } else { 1 };
    s as usize
}

/// The chosen step brings the longer side of the frame down to at most
/// `max_side` samples (when the side fits in 32 bits).
pub proof fn lemma_step_fits_max_side(width: usize, height: usize, max_side: u32)
    requires
        max_side > 0,
        (if width >= height { width } else { height }) <= u32::MAX,
        (if width >= height { width } else { height }) + max_side <= u32::MAX,
    ensures
        div_ceil(width as nat, subsample_step_spec(width, height, max_side)) <= max_side,
        div_ceil(height as nat, subsample_step_spec(width, height, max_side)) <= max_side,
{
    let m: nat = (if width >= height { width } else { height }) as nat;
    let ms: nat = max_side as nat;
    let longer = #[verifier::truncate] ((if width >= height { width } else { height }) as u32);
    assert(longer == m);
    let s = subsample_step_spec(width, height, max_side);
    assert(s >= 1);
    lemma_div_ceil_le(width as nat, m, s);
    lemma_div_ceil_le(height as nat, m, s);
    lemma_div_ceil_bound(m, ms, s);
}

proof fn lemma_div_ceil_le(a: nat, m: nat, s: nat)
    requires
        a <= m,
        s > 0,
    ensures
        div_ceil(a, s) <= div_ceil(m, s),
{
    vstd::arithmetic::div_mod::lemma_div_is_ordered(a as int, m as int, s as int);
    if a / s == m / s && a % s != 0 {
        vstd::arithmetic::div_mod::lemma_fundamental_div_mod(a as int, s as int);
        vstd::arithmetic::div_mod::lemma_fundamental_div_mod(m as int, s as int);
    }
}

proof fn lemma_div_ceil_bound(m: nat, ms: nat, s: nat)
    requires
        ms > 0,
        s >= 1,
        s >= (m + ms - 1) / (ms as int),
    ensures
        div_ceil(m, s) <= ms,
{
    // m <= ms * s, so ceil(m / s) <= ms.
    vstd::arithmetic::div_mod::lemma_fundamental_div_mod((m + ms - 1) as int, ms as int);
    let q = (m + ms - 1) / (ms as int);
    let r = (m + ms - 1) % (ms as int);
    assert(m <= ms * s) by (nonlinear_arith)
        requires
            m + ms - 1 == ms * q + r,
            0 <= r < ms,
            q <= s,
            ms > 0,
    ;
    vstd::arithmetic::div_mod::lemma_fundamental_div_mod(m as int, s as int);
    let dq = m / s;
    let dr = m % s;
    assert(dq <= ms) by (nonlinear_arith)
        requires
            m == s * dq + dr,
            0 <= dr < s,
            m <= ms * s,
            s >= 1,
    ;
    if dq == ms {
        assert(dr == 0) by (nonlinear_arith)
            requires
                m == s * dq + dr,
                0 <= dr,
                m <= ms * s,
                dq == ms,
        ;
    }
}

/// Whether every sample that a `step` subsampling of a `width`×`height` frame
/// reads lies within a buffer of `len` samples.
pub open spec fn subsample_fits(len: nat, width: nat, height: nat, step: nat) -> bool {
    width == 0 || height == 0 || ((div_ceil(height, step) - 1) * step) * width
        + (div_ceil(width, step) - 1) * step < len
}

/// Every `step`-th sample of every `step`-th row of a row-major frame, row by row.
pub open spec fn subsampled(data: Seq<u16>, width: nat, height: nat, step: nat) -> Seq<u16> {
    let sw = div_ceil(width, step);
    let sh = div_ceil(height, step);
    Seq::new(sw * sh, |i: int| data[((i / sw as int) * step) * width + (i % sw as int) * step])
}

/// With a step of one, subsampling keeps the whole frame, in order.
pub proof fn lemma_subsample_step_one_keeps_all(data: Seq<u16>, width: nat, height: nat)
    requires
        width * height <= data.len(),
    ensures
        subsampled(data, width, height, 1) == data.subrange(0, (width * height) as int),
{
    assert(div_ceil(width, 1) == width);
    assert(div_ceil(height, 1) == height);
    let s = subsampled(data, width, height, 1);
    assert forall|i: int| 0 <= i < s.len() implies #[trigger] s[i] == data[i] by {
        assert(width > 0) by (nonlinear_arith)
            requires
                0 <= i < width * height,
        ;
        vstd::arithmetic::div_mod::lemma_fundamental_div_mod(i, width as int);
        vstd::arithmetic::mul::lemma_mul_is_commutative(i / (width as int), width as int);
    }
    assert(s =~= data.subrange(0, (width * height) as int));
}

/// The kept rows and columns are exactly those at multiples of the step that
/// lie inside the frame: `div_ceil(side, step)` of them, the last one inside
/// and the next one past the edge.
pub proof fn lemma_subsample_covers_frame(side: nat, step: nat)
    requires
        step > 0,
        side > 0,
    ensures
        (div_ceil(side, step) - 1) * step < side,
        side <= div_ceil(side, step) * step,
{
    vstd::arithmetic::div_mod::lemma_fundamental_div_mod(side as int, step as int);
    let q = side / step;
    let r = side % step;
    if q == 0 {
        assert(r == side) by (nonlinear_arith)
            requires
                side == step * q + r,
                q == 0,
        ;
    }
    assert(div_ceil(side, step) >= 1);
    lemma_below_div_ceil((div_ceil(side, step) - 1) as nat, side, step);
    if r == 0 {
        assert(side <= q * step) by (nonlinear_arith)
            requires
                side == step * q + r,
                r == 0,
        ;
    } else {
        assert(side <= (q + 1) * step) by (nonlinear_arith)
            requires
                side == step * q + r,
                r < step,
        ;
    }
}

proof fn lemma_below_div_ceil(c: nat, a: nat, s: nat)
    requires
        s > 0,
        c < div_ceil(a, s),
    ensures
        c * s < a,
{
    let q = a / s;
    let r = a % s;
    vstd::arithmetic::div_mod::lemma_fundamental_div_mod(a as int, s as int);
    assert(a == s * q + r);
    if c < q {
        assert(c * s < a) by (nonlinear_arith)
            requires
                c < q,
                a == s * q + r,
                r >= 0,
                s > 0,
        ;
    } else {
        assert(c == q && r != 0);
        assert(c * s < a) by (nonlinear_arith)
            requires
                c == q,
                a == s * q + r,
                r > 0,
        ;
    }
}

proof fn lemma_div_ceil_fits(a: nat, s: nat)
    requires
        s > 0,
    ensures
        div_ceil(a, s) <= a,
{
    if a % s != 0 {
        if a == 0 {
            vstd::arithmetic::div_mod::lemma_small_mod(0, s);
        }
        assert(a / s < a) by (nonlinear_arith)
            requires
                s > 1,
                a > 0,
        {
            vstd::arithmetic::div_mod::lemma_div_decreases(a as int, s as int);
        }
    } else {
        vstd::arithmetic::div_mod::lemma_div_is_ordered_by_denominator(a as int, 1, s as int);
    }
}

proof fn lemma_index_bound(r: nat, c: nat, sh: nat, sw: nat, s: nat, w: nat)
    requires
        r < sh,
        c < sw,
    ensures
        (r * s) * w + c * s <= ((sh - 1) * s) * w + (sw - 1) * s,
{
    assert((r * s) * w <= ((sh - 1) * s) * w) by (nonlinear_arith)
        requires
            r <= sh - 1,
    ;
    assert(c * s <= (sw - 1) * s) by (nonlinear_arith)
        requires
            c <= sw - 1,
    ;
}

/// Keep every `step`-th sample of every `step`-th row of a row-major frame.
///
/// Returns the kept samples with the width and height of the smaller frame
/// they form.
pub fn subsample(data: &[u16], width: usize, height: usize, step: usize) -> (res: (
    Vec<u16>,
    usize,
    usize,
))
    requires
        step > 0,
        subsample_fits(data@.len(), width as nat, height as nat, step as nat),
    ensures
        res.1 == div_ceil(width as nat, step as nat),
        res.2 == div_ceil(height as nat, step as nat),
        res.0@ == subsampled(data@, width as nat, height as nat, step as nat),
{
    proof {
        lemma_div_ceil_fits(width as nat, step as nat);
        lemma_div_ceil_fits(height as nat, step as nat);
    }
    let sw: usize = width / step + if width % step != 0 { 1usize } else { 0usize };
    let sh: usize = height / step + if height % step != 0 { 1usize } else { 0usize };
    let len: usize = data.len();
    let ghost total = subsampled(data@, width as nat, height as nat, step as nat);
    let mut out: Vec<u16> = Vec::new();
    let mut r: usize = 0;
    while r < sh
        invariant
            sw == div_ceil(width as nat, step as nat),
            sh == div_ceil(height as nat, step as nat),
            step > 0,
            subsample_fits(data@.len(), width as nat, height as nat, step as nat),
            total == subsampled(data@, width as nat, height as nat, step as nat),
            0 <= r <= sh,
            len == data@.len(),
            out@.len() == r * sw,
            total.len() == sw * sh,
            out@.len() <= total.len(),
            forall|i: int| 0 <= i < out@.len() ==> #[trigger] out@[i] == total[i],
        decreases sh - r,
    {
        proof {
            lemma_below_div_ceil(r as nat, height as nat, step as nat);
        }
        let y: usize = r * step;
        let mut c: usize = 0;
        while c < sw
            invariant
                sw == div_ceil(width as nat, step as nat),
                sh == div_ceil(height as nat, step as nat),
                step > 0,
                subsample_fits(data@.len(), width as nat, height as nat, step as nat),
                total == subsampled(data@, width as nat, height as nat, step as nat),
                0 <= r < sh,
                y == r * step,
                y < height,
                len == data@.len(),
                0 <= c <= sw,
                out@.len() == r * sw + c,
                total.len() == sw * sh,
                out@.len() <= total.len(),
                forall|i: int| 0 <= i < out@.len() ==> #[trigger] out@[i] == total[i],
            decreases sw - c,
        {
            proof {
                lemma_below_div_ceil(c as nat, width as nat, step as nat);
                lemma_index_bound(r as nat, c as nat, sh as nat, sw as nat, step as nat, width as nat);
                vstd::arithmetic::div_mod::lemma_fundamental_div_mod_converse(
                    (r * sw + c) as int,
                    sw as int,
                    r as int,
                    c as int,
                );
                assert(total.len() == sw * sh);
                assert(r * sw + c < sw * sh) by (nonlinear_arith)
                    requires
                        r < sh,
                        c < sw,
                ;
            }
            assert(width > 0 && height > 0);
            assert((y as int) * (width as int) + (c as int) * (step as int) < data@.len());
            assert(0 <= (c as int) * (step as int)) by (nonlinear_arith);
            let x: usize = c * step;
            let row: usize = y * width;
            out.push(data[row + x]);
            c = c + 1;
        }
        proof {
            assert((r + 1) * sw == r * sw + sw) by (nonlinear_arith);
            assert(r * sw + sw <= sw * sh) by (nonlinear_arith)
                requires
                    r < sh,
            ;
        }
        r = r + 1;
    }
    proof {
        assert(out@.len() == total.len()) by {
            assert(sh * sw == sw * sh) by (nonlinear_arith);
        }
    }
    assert(out@ =~= total);
    (out, sw, sh)
}

} // verus!
