//! Contact sheet of a capture: one labelled cell per camera module.

use vstd::prelude::*;

use crate::codec::{
    decode_png, encode_png8, png_decoded, png_encoded, PngColor, PngError, PngFrame, PNG_GRAYSCALE,
};
use crate::image::{
    flatten_pixels, lemma_pixel_index_bounds, pixel_index, GrayImage, GrayView, RgbaImage,
};
use crate::thumbnail::parse_camera_id;
use crate::types::{camera_name, lemma_camera_name_round_trip, CameraId};

verus! {

/// Weight of glyph column `c` (0 to 5, left to right) in a row mask.
pub open spec fn column_weight(c: int) -> int {
    if c == 0 {
        32
    } else if c == 1 {
        16
    } else if c == 2 {
        8
    } else if c == 3 {
        4
    } else if c == 4 {
        2
    } else {
        1
    }
}

/// Whether column `c` is lit in the row mask `m`.
pub open spec fn mask_bit(m: int, c: int) -> bool {
    (m / column_weight(c)) % 2 == 1
}

/// Row masks of a blank glyph.
pub open spec fn blank_masks() -> Seq<int> {
    seq![0int, 0, 0, 0, 0, 0, 0, 0]
}
/// Row masks, top to bottom, of the digit glyphs `'0'` to `'6'`; other
/// characters are blank.
pub open spec fn digit_masks(ch: char) -> Seq<int> {
    if ch == '0' {
        seq![0b011100int, 0b100010, 0b100010, 0b100010, 0b100010, 0b011100, 0b000000, 0b000000]
    } else if ch == '1' {
        seq![0b001000int, 0b011000, 0b001000, 0b001000, 0b001000, 0b011100, 0b000000, 0b000000]
    } else if ch == '2' {
        seq![0b011100int, 0b100010, 0b000100, 0b001000, 0b010000, 0b111110, 0b000000, 0b000000]
    } else if ch == '3' {
        seq![0b111100int, 0b000010, 0b011100, 0b000010, 0b000010, 0b111100, 0b000000, 0b000000]
    } else if ch == '4' {
        seq![0b001100int, 0b010100, 0b100100, 0b111110, 0b000100, 0b000100, 0b000000, 0b000000]
    } else if ch == '5' {
        seq![0b111110int, 0b100000, 0b111100, 0b000010, 0b000010, 0b111100, 0b000000, 0b000000]
    } else if ch == '6' {
        seq![0b011100int, 0b100000, 0b111100, 0b100010, 0b100010, 0b011100, 0b000000, 0b000000]
    } else {
        blank_masks()
    }
}

/// Row masks, top to bottom, of the label glyphs: `A`, `B`, `C`, the digits,
/// `r`, `e`, `f`; every other character, the space included, is blank.
pub open spec fn glyph_masks(ch: char) -> Seq<int> {
    if ch == 'A' {
        seq![0b011100int, 0b100010, 0b100010, 0b111110, 0b100010, 0b100010, 0b100010, 0b000000]
    } else if ch == 'B' {
        seq![0b111100int, 0b100010, 0b111100, 0b100010, 0b100010, 0b111100, 0b000000, 0b000000]
    } else if ch == 'C' {
        seq![0b011110int, 0b100000, 0b100000, 0b100000, 0b100000, 0b011110, 0b000000, 0b000000]
    } else if '0' <= ch && ch <= '9' {
        digit_masks(ch)
    } else if ch == 'r' {
        seq![0b000000int, 0b111000, 0b100100, 0b100000, 0b100000, 0b100000, 0b000000, 0b000000]
    } else if ch == 'e' {
        seq![0b000000int, 0b011100, 0b100010, 0b111110, 0b100000, 0b011100, 0b000000, 0b000000]
    } else if ch == 'f' {
        seq![0b011100int, 0b100000, 0b111000, 0b100000, 0b100000, 0b100000, 0b000000, 0b000000]
    } else {
        blank_masks()
    }
}

/// Whether the six cells of `row` follow the row mask `m`.
pub open spec fn row_matches(row: [bool; 6], m: int) -> bool {
    &&& row@[0] == mask_bit(m, 0)
    &&& row@[1] == mask_bit(m, 1)
    &&& row@[2] == mask_bit(m, 2)
    &&& row@[3] == mask_bit(m, 3)
    &&& row@[4] == mask_bit(m, 4)
    &&& row@[5] == mask_bit(m, 5)
}

/// Whether the eight rows of `g` follow the row masks `masks`.
pub open spec fn glyph_matches(g: [[bool; 6]; 8], masks: Seq<int>) -> bool {
    &&& row_matches(g@[0], masks[0])
    &&& row_matches(g@[1], masks[1])
    &&& row_matches(g@[2], masks[2])
    &&& row_matches(g@[3], masks[3])
    &&& row_matches(g@[4], masks[4])
    &&& row_matches(g@[5], masks[5])
    &&& row_matches(g@[6], masks[6])
    &&& row_matches(g@[7], masks[7])
}

/// Whether cell `(col, row)` of the glyph for `ch` is lit.
pub open spec fn glyph_on(ch: char, row: int, col: int) -> bool {
    mask_bit(glyph_masks(ch)[row], col)
}

proof fn lemma_glyph_cell(g: [[bool; 6]; 8], masks: Seq<int>, r: int, c: int)
    requires
        glyph_matches(g, masks),
        0 <= r < 8,
        0 <= c < 6,
    ensures
        g@[r]@[c] == mask_bit(masks[r], c),
{
    assert(r == 0 || r == 1 || r == 2 || r == 3 || r == 4 || r == 5 || r == 6 || r == 7);
    assert(c == 0 || c == 1 || c == 2 || c == 3 || c == 4 || c == 5);
}

/// The 6×8 glyph drawn for a digit; `'7'`, `'8'` and `'9'` (and anything else) are blank.
fn digit_font(ch: char) -> (g: [[bool; 6]; 8])
    ensures
        glyph_matches(g, digit_masks(ch)),
{
    match ch {
        '0' => [
            [false, true, true, true, false, false],
            [true, false, false, false, true, false],
            [true, false, false, false, true, false],
            [true, false, false, false, true, false],
            [true, false, false, false, true, false],
            [false, true, true, true, false, false],
            [false, false, false, false, false, false],
            [false, false, false, false, false, false],
        ],
        '1' => [
            [false, false, true, false, false, false],
            [false, true, true, false, false, false],
            [false, false, true, false, false, false],
            [false, false, true, false, false, false],
            [false, false, true, false, false, false],
            [false, true, true, true, false, false],
            [false, false, false, false, false, false],
            [false, false, false, false, false, false],
        ],
        '2' => [
            [false, true, true, true, false, false],
            [true, false, false, false, true, false],
            [false, false, false, true, false, false],
            [false, false, true, false, false, false],
            [false, true, false, false, false, false],
            [true, true, true, true, true, false],
            [false, false, false, false, false, false],
            [false, false, false, false, false, false],
        ],
        '3' => [
            [true, true, true, true, false, false],
            [false, false, false, false, true, false],
            [false, true, true, true, false, false],
            [false, false, false, false, true, false],
            [false, false, false, false, true, false],
            [true, true, true, true, false, false],
            [false, false, false, false, false, false],
            [false, false, false, false, false, false],
        ],
        '4' => [
            [false, false, true, true, false, false],
            [false, true, false, true, false, false],
            [true, false, false, true, false, false],
            [true, true, true, true, true, false],
            [false, false, false, true, false, false],
            [false, false, false, true, false, false],
            [false, false, false, false, false, false],
            [false, false, false, false, false, false],
        ],
        '5' => [
            [true, true, true, true, true, false],
            [true, false, false, false, false, false],
            [true, true, true, true, false, false],
            [false, false, false, false, true, false],
            [false, false, false, false, true, false],
            [true, true, true, true, false, false],
            [false, false, false, false, false, false],
            [false, false, false, false, false, false],
        ],
        '6' => [
            [false, true, true, true, false, false],
            [true, false, false, false, false, false],
            [true, true, true, true, false, false],
            [true, false, false, false, true, false],
            [true, false, false, false, true, false],
            [false, true, true, true, false, false],
            [false, false, false, false, false, false],
            [false, false, false, false, false, false],
        ],
        _ => [[false; 6]; 8],
    }
}

/// The 6×8 glyph drawn for `ch` in a cell label.
fn tiny_font(ch: char) -> (g: [[bool; 6]; 8])
    ensures
        glyph_matches(g, glyph_masks(ch)),
{
    match ch {
        'A' => [
            [false, true, true, true, false, false],
            [true, false, false, false, true, false],
            [true, false, false, false, true, false],
            [true, true, true, true, true, false],
            [true, false, false, false, true, false],
            [true, false, false, false, true, false],
            [true, false, false, false, true, false],
            [false, false, false, false, false, false],
        ],
        'B' => [
            [true, true, true, true, false, false],
            [true, false, false, false, true, false],
            [true, true, true, true, false, false],
            [true, false, false, false, true, false],
            [true, false, false, false, true, false],
            [true, true, true, true, false, false],
            [false, false, false, false, false, false],
            [false, false, false, false, false, false],
        ],
        'C' => [
            [false, true, true, true, true, false],
            [true, false, false, false, false, false],
            [true, false, false, false, false, false],
            [true, false, false, false, false, false],
            [true, false, false, false, false, false],
            [false, true, true, true, true, false],
            [false, false, false, false, false, false],
            [false, false, false, false, false, false],
        ],
        '0' | '1' | '2' | '3' | '4' | '5' | '6' | '7' | '8' | '9' => digit_font(ch),
        ' ' => [[false; 6]; 8],
        'r' => [
            [false, false, false, false, false, false],
            [true, true, true, false, false, false],
            [true, false, false, true, false, false],
            [true, false, false, false, false, false],
            [true, false, false, false, false, false],
            [true, false, false, false, false, false],
            [false, false, false, false, false, false],
            [false, false, false, false, false, false],
        ],
        'e' => [
            [false, false, false, false, false, false],
            [false, true, true, true, false, false],
            [true, false, false, false, true, false],
            [true, true, true, true, true, false],
            [true, false, false, false, false, false],
            [false, true, true, true, false, false],
            [false, false, false, false, false, false],
            [false, false, false, false, false, false],
        ],
        'f' => [
            [false, true, true, true, false, false],
            [true, false, false, false, false, false],
            [true, true, true, false, false, false],
            [true, false, false, false, false, false],
            [true, false, false, false, false, false],
            [true, false, false, false, false, false],
            [false, false, false, false, false, false],
            [false, false, false, false, false, false],
        ],
        _ => [[false; 6]; 8],
    }
}

/// Whether the glyph for `ch` drawn with its top-left corner at `(x, y)` lights
/// pixel `(px, py)`.
pub open spec fn char_covers(ch: char, x: int, y: int, px: int, py: int) -> bool {
    &&& x <= px < x + 6
    &&& y <= py < y + 8
    &&& glyph_on(ch, py - y, px - x)
}

/// `pixels` of a `width`-wide canvas with the glyph for `ch` drawn in `color`
/// at `(x, y)`.
pub open spec fn char_painted(
    pixels: Seq<[u8; 4]>,
    width: int,
    ch: char,
    x: int,
    y: int,
    color: [u8; 4],
) -> Seq<[u8; 4]> {
    Seq::new(
        pixels.len(),
        |i: int| if char_covers(ch, x, y, i % width, i / width) { color } else { pixels[i] },
    )
}

proof fn lemma_index_coords(i: int, width: int, height: int)
    requires
        0 <= i < width * height,
        width >= 0,
        height >= 0,
    ensures
        0 <= i % width < width,
        0 <= i / width < height,
        pixel_index(i % width, i / width, width) == i,
{
    assert(width > 0) by (nonlinear_arith)
        requires
            0 <= i < width * height,
            width >= 0,
            height >= 0,
    ;
    vstd::arithmetic::div_mod::lemma_fundamental_div_mod(i, width);
    vstd::arithmetic::mul::lemma_mul_is_commutative(width, i / width);
    if i / width >= height {
        vstd::arithmetic::mul::lemma_mul_inequality(height, i / width, width);
        vstd::arithmetic::mul::lemma_mul_is_commutative(width, height);
    }
    if i / width < 0 {
        vstd::arithmetic::mul::lemma_mul_inequality(i / width, -1, width);
    }
}

/// Draw the glyph for `ch` in `color` with its top-left corner at `(x, y)`;
/// the part outside the canvas is cut off.
fn draw_char(canvas: &mut RgbaImage, x: u32, y: u32, ch: char, color: [u8; 4])
    requires
        old(canvas).wf(),
        x + 6 <= u32::MAX,
        y + 8 <= u32::MAX,
    ensures
        final(canvas).wf(),
        final(canvas)@.width == old(canvas)@.width,
        final(canvas)@.height == old(canvas)@.height,
        final(canvas)@.pixels == char_painted(
            old(canvas)@.pixels,
            old(canvas)@.width as int,
            ch,
            x as int,
            y as int,
            color,
        ),
{
    proof {
        RgbaImage::lemma_wf(canvas);
    }
    let ghost orig = canvas@.pixels;
    let ghost w = canvas@.width as int;
    let ghost h = canvas@.height as int;
    let glyph: [[bool; 6]; 8] = tiny_font(ch);
    let cw: u32 = canvas.width();
    let chh: u32 = canvas.height();
    let mut dy: usize = 0;
    while dy < 8
        invariant
            canvas.wf(),
            canvas@.width == w,
            canvas@.height == h,
            canvas@.pixels.len() == w * h,
            orig.len() == w * h,
            cw == w,
            chh == h,
            x + 6 <= u32::MAX,
            y + 8 <= u32::MAX,
            glyph_matches(glyph, glyph_masks(ch)),
            0 <= dy <= 8,
            forall|i: int|
                0 <= i < w * h ==> #[trigger] canvas@.pixels[i] == if char_covers(
                    ch,
                    x as int,
                    y as int,
                    i % w,
                    i / w,
                ) && i / w - y < dy {
                    color
                } else {
                    orig[i]
                },
        decreases 8 - dy,
    {
        let mut dx: usize = 0;
        while dx < 6
            invariant
                canvas.wf(),
                canvas@.width == w,
                canvas@.height == h,
                canvas@.pixels.len() == w * h,
                orig.len() == w * h,
                cw == w,
                chh == h,
                x + 6 <= u32::MAX,
                y + 8 <= u32::MAX,
                glyph_matches(glyph, glyph_masks(ch)),
                0 <= dy < 8,
                0 <= dx <= 6,
                forall|i: int|
                    0 <= i < w * h ==> #[trigger] canvas@.pixels[i] == if char_covers(
                        ch,
                        x as int,
                        y as int,
                        i % w,
                        i / w,
                    ) && (i / w - y < dy || (i / w - y == dy && i % w - x < dx)) {
                        color
                    } else {
                        orig[i]
                    },
            decreases 6 - dx,
        {
            proof {
                lemma_glyph_cell(glyph, glyph_masks(ch), dy as int, dx as int);
            }
            if glyph[dy][dx] {
                let px: u32 = x + dx as u32;
                let py: u32 = y + dy as u32;
                if px < cw && py < chh {
                    let ghost before = canvas@.pixels;
                    canvas.put_pixel(px, py, color);
                    proof {
                        lemma_pixel_index_bounds(px as int, py as int, w, h);
                        assert forall|i: int| 0 <= i < w * h implies #[trigger] canvas@.pixels[i]
                            == if char_covers(ch, x as int, y as int, i % w, i / w) && (i / w - y
                            < dy || (i / w - y == dy && i % w - x < dx + 1)) {
                            color
                        } else {
                            orig[i]
                        } by {
                            lemma_index_coords(i, w, h);
                        }
                    }
                } else {
                    proof {
                        assert forall|i: int| 0 <= i < w * h implies #[trigger] canvas@.pixels[i]
                            == if char_covers(ch, x as int, y as int, i % w, i / w) && (i / w - y
                            < dy || (i / w - y == dy && i % w - x < dx + 1)) {
                            color
                        } else {
                            orig[i]
                        } by {
                            lemma_index_coords(i, w, h);
                        }
                    }
                }
            } else {
                proof {
                    assert forall|i: int| 0 <= i < w * h implies #[trigger] canvas@.pixels[i] == if char_covers(
                        ch,
                        x as int,
                        y as int,
                        i % w,
                        i / w,
                    ) && (i / w - y < dy || (i / w - y == dy && i % w - x < dx + 1)) {
                        color
                    } else {
                        orig[i]
                    } by {
                        lemma_index_coords(i, w, h);
                    }
                }
            }
            dx = dx + 1;
        }
        dy = dy + 1;
    }
    proof {
        let target = char_painted(orig, w, ch, x as int, y as int, color);
        assert forall|i: int| 0 <= i < w * h implies #[trigger] canvas@.pixels[i] == target[i] by {
            lemma_index_coords(i, w, h);
        }
        assert(canvas@.pixels =~= target);
    }
}

/// Whether `text`, drawn one glyph every eight pixels from `(x, y)`, lights
/// pixel `(px, py)`; only the glyph whose eight-pixel slot holds `px` can.
pub open spec fn text_covers(text: Seq<char>, x: int, y: int, px: int, py: int) -> bool {
    let k = (px - x) / 8;
    &&& px >= x
    &&& k < text.len()
    &&& char_covers(text[k], x + 8 * k, y, px, py)
}

/// `pixels` of a `width`-wide canvas with `text` drawn in `color` from `(x, y)`.
pub open spec fn text_painted(
    pixels: Seq<[u8; 4]>,
    width: int,
    text: Seq<char>,
    x: int,
    y: int,
    color: [u8; 4],
) -> Seq<[u8; 4]> {
    Seq::new(
        pixels.len(),
        |i: int| if text_covers(text, x, y, i % width, i / width) { color } else { pixels[i] },
    )
}

/// Draw `text` in `color`, one glyph every eight pixels from `(x, y)`.
fn draw_text(canvas: &mut RgbaImage, x: u32, y: u32, text: &str, color: [u8; 4])
    requires
        old(canvas).wf(),
        x + 8 * text@.len() + 6 <= u32::MAX,
        y + 8 <= u32::MAX,
    ensures
        final(canvas).wf(),
        final(canvas)@.width == old(canvas)@.width,
        final(canvas)@.height == old(canvas)@.height,
        final(canvas)@.pixels == text_painted(
            old(canvas)@.pixels,
            old(canvas)@.width as int,
            text@,
            x as int,
            y as int,
            color,
        ),
{
    proof {
        RgbaImage::lemma_wf(canvas);
    }
    let ghost orig = canvas@.pixels;
    let ghost w = canvas@.width as int;
    let ghost h = canvas@.height as int;
    let n: usize = text.unicode_len();
    let mut k: usize = 0;
    while k < n
        invariant
            canvas.wf(),
            canvas@.width == w,
            canvas@.height == h,
            canvas@.pixels.len() == w * h,
            orig.len() == w * h,
            n == text@.len(),
            x + 8 * n + 6 <= u32::MAX,
            y + 8 <= u32::MAX,
            0 <= k <= n,
            forall|i: int|
                0 <= i < w * h ==> #[trigger] canvas@.pixels[i] == if text_covers(
                    text@,
                    x as int,
                    y as int,
                    i % w,
                    i / w,
                ) && (i % w - x) / 8 < k {
                    color
                } else {
                    orig[i]
                },
        decreases n - k,
    {
        let ch: char = text.get_char(k);
        let ghost before = canvas@.pixels;
        let cx: u32 = x + (k as u32) * 8;
        draw_char(canvas, cx, y, ch, color);
        proof {
            assert forall|i: int| 0 <= i < w * h implies #[trigger] canvas@.pixels[i] == if text_covers(
                text@,
                x as int,
                y as int,
                i % w,
                i / w,
            ) && (i % w - x) / 8 < k + 1 {
                color
            } else {
                orig[i]
            } by {
                lemma_index_coords(i, w, h);
                let px = i % w;
                if char_covers(ch, cx as int, y as int, px, i / w) {
                    assert((px - x) / 8 == k);
                }
            }
        }
        k = k + 1;
    }
    proof {
        let target = text_painted(orig, w, text@, x as int, y as int, color);
        assert forall|i: int| 0 <= i < w * h implies #[trigger] canvas@.pixels[i] == target[i] by {
            lemma_index_coords(i, w, h);
        }
        assert(canvas@.pixels =~= target);
    }
}

/// Width of a grid cell's image area.
pub const CELL_W: u32 = 160;
/// Height of a grid cell's image area.
pub const CELL_H: u32 = 120;
/// Gap around and between cells.
pub const PAD: u32 = 8;
/// Height of the label band above each cell's image area.
pub const LABEL_H: u32 = 18;

/// Text of a cell label: the module name, followed by `" ref"` on the
/// reference module.
pub open spec fn label_text(id: Seq<char>, is_ref: bool) -> Seq<char> {
    if is_ref {
        id + " ref"@
    } else {
        id
    }
}

/// Colour of a cell label: blue on the reference module, light grey on a
/// module with a preview, dark grey otherwise.
pub open spec fn label_color(is_ref: bool, present: bool) -> [u8; 4] {
    if is_ref {
        [120u8, 200u8, 255u8, 255u8]
    } else if present {
        [220u8, 220u8, 220u8, 255u8]
    } else {
        [100u8, 100u8, 110u8, 255u8]
    }
}

/// Write the label of the cell whose top-left corner is `(x, y)`.
fn draw_label(canvas: &mut RgbaImage, x: u32, y: u32, id: &str, is_ref: bool, present: bool)
    requires
        old(canvas).wf(),
        x + 4 + 8 * (id@.len() + " ref"@.len()) + 6 <= u32::MAX,
        y + 2 + 8 <= u32::MAX,
    ensures
        final(canvas).wf(),
        final(canvas)@.width == old(canvas)@.width,
        final(canvas)@.height == old(canvas)@.height,
        final(canvas)@.pixels == text_painted(
            old(canvas)@.pixels,
            old(canvas)@.width as int,
            label_text(id@, is_ref),
            x + 4,
            y + 2,
            label_color(is_ref, present),
        ),
{
    let color: [u8; 4] = if is_ref {
        [120u8, 200u8, 255u8, 255u8]
    } else if present {
        [220u8, 220u8, 220u8, 255u8]
    } else {
        [100u8, 100u8, 110u8, 255u8]
    };
    let mut label: String = String::from_str(id);
    if is_ref {
        label.append(" ref");
    }
    draw_text(canvas, x + 4, y + 2, label.as_str(), color);
}

/// Whether `(px, py)` lies in the image area of the cell at `(x, y)`.
pub open spec fn in_cell(x: int, y: int, px: int, py: int) -> bool {
    x <= px < x + CELL_W && y <= py < y + CELL_H
}

/// Checkerboard shade at offset `(dx, dy)` of a cell without a preview:
/// diagonal stripes eight pixels wide.
pub open spec fn missing_shade(dx: int, dy: int) -> [u8; 4] {
    if (dx + dy) % 16 < 8 {
        [40u8, 40u8, 42u8, 255u8]
    } else {
        [32u8, 32u8, 34u8, 255u8]
    }
}

/// `pixels` of a `width`-wide canvas with the image area of the cell at
/// `(x, y)` showing the no-preview pattern.
pub open spec fn missing_filled(pixels: Seq<[u8; 4]>, width: int, x: int, y: int) -> Seq<[u8; 4]> {
    Seq::new(
        pixels.len(),
        |i: int|
            if in_cell(x, y, i % width, i / width) {
                missing_shade(i % width - x, i / width - y)
            } else {
                pixels[i]
            },
    )
}

/// Fill the image area of the cell at `(x, y)` with the no-preview pattern.
fn draw_missing(canvas: &mut RgbaImage, x: u32, y: u32)
    requires
        old(canvas).wf(),
        x + CELL_W <= old(canvas)@.width,
        y + CELL_H <= old(canvas)@.height,
    ensures
        final(canvas).wf(),
        final(canvas)@.width == old(canvas)@.width,
        final(canvas)@.height == old(canvas)@.height,
        final(canvas)@.pixels == missing_filled(
            old(canvas)@.pixels,
            old(canvas)@.width as int,
            x as int,
            y as int,
        ),
{
    proof {
        RgbaImage::lemma_wf(canvas);
    }
    let ghost orig = canvas@.pixels;
    let ghost w = canvas@.width as int;
    let ghost h = canvas@.height as int;
    let mut dy: u32 = 0;
    while dy < CELL_H
        invariant
            canvas.wf(),
            canvas@.width == w,
            canvas@.height == h,
            canvas@.pixels.len() == w * h,
            orig.len() == w * h,
            x + CELL_W <= w <= u32::MAX,
            y + CELL_H <= h <= u32::MAX,
            0 <= dy <= CELL_H,
            forall|i: int|
                0 <= i < w * h ==> #[trigger] canvas@.pixels[i] == if in_cell(x as int, y as int, i % w, i / w)
                    && i / w - y < dy {
                    missing_shade(i % w - x, i / w - y)
                } else {
                    orig[i]
                },
        decreases CELL_H - dy,
    {
        let mut dx: u32 = 0;
        while dx < CELL_W
            invariant
                canvas.wf(),
                canvas@.width == w,
                canvas@.height == h,
                canvas@.pixels.len() == w * h,
                orig.len() == w * h,
                x + CELL_W <= w <= u32::MAX,
                y + CELL_H <= h <= u32::MAX,
                0 <= dy < CELL_H,
                0 <= dx <= CELL_W,
                forall|i: int|
                    0 <= i < w * h ==> #[trigger] canvas@.pixels[i] == if in_cell(
                        x as int,
                        y as int,
                        i % w,
                        i / w,
                    ) && (i / w - y < dy || (i / w - y == dy && i % w - x < dx)) {
                        missing_shade(i % w - x, i / w - y)
                    } else {
                        orig[i]
                    },
            decreases CELL_W - dx,
        {
            let c: u8 = if (dx + dy) % 16 < 8 { 40 } else { 32 };
            canvas.put_pixel(x + dx, y + dy, [c, c, c + 2, 255]);
            proof {
                lemma_pixel_index_bounds((x + dx) as int, (y + dy) as int, w, h);
                assert forall|i: int| 0 <= i < w * h implies #[trigger] canvas@.pixels[i] == if in_cell(
                    x as int,
                    y as int,
                    i % w,
                    i / w,
                ) && (i / w - y < dy || (i / w - y == dy && i % w - x < dx + 1)) {
                    missing_shade(i % w - x, i / w - y)
                } else {
                    orig[i]
                } by {
                    lemma_index_coords(i, w, h);
                }
            }
            dx = dx + 1;
        }
        dy = dy + 1;
    }
    proof {
        let target = missing_filled(orig, w, x as int, y as int);
        assert forall|i: int| 0 <= i < w * h implies #[trigger] canvas@.pixels[i] == target[i] by {
            lemma_index_coords(i, w, h);
        }
        assert(canvas@.pixels =~= target);
    }
}

/// Column of a `size`-wide preview shown at offset `d` of a cell side `cell`
/// long: `d * size / cell` with the product wrapping at 32 bits as in an
/// unchecked build, kept inside the preview.
pub open spec fn scaled_coord(d: int, size: int, cell: int) -> int {
    let s = ((d * size) % 0x1_0000_0000) / cell;
    if s < size - 1 {
        s
    } else {
        size - 1
    }
}

/// Shade at offset `(dx, dy)` of a cell showing `thumb` stretched over it.
pub open spec fn thumb_shade(thumb: GrayView, dx: int, dy: int) -> [u8; 4] {
    let sx = scaled_coord(dx, thumb.width as int, CELL_W as int);
    let sy = scaled_coord(dy, thumb.height as int, CELL_H as int);
    let v = thumb.pixels[pixel_index(sx, sy, thumb.width as int)];
    [v, v, v, 255u8]
}

/// `pixels` of a `width`-wide canvas with the image area of the cell at
/// `(x, y)` showing `thumb`.
pub open spec fn thumb_filled(
    pixels: Seq<[u8; 4]>,
    width: int,
    x: int,
    y: int,
    thumb: GrayView,
) -> Seq<[u8; 4]> {
    Seq::new(
        pixels.len(),
        |i: int|
            if in_cell(x, y, i % width, i / width) {
                thumb_shade(thumb, i % width - x, i / width - y)
            } else {
                pixels[i]
            },
    )
}

/// Fill the image area of the cell at `(x, y)` with `thumb`, stretched to
/// the cell by nearest-neighbour sampling.
fn blit_thumb(canvas: &mut RgbaImage, x: u32, y: u32, thumb: &GrayImage)
    requires
        old(canvas).wf(),
        thumb.wf(),
        thumb@.width > 0,
        thumb@.height > 0,
        x + CELL_W <= old(canvas)@.width,
        y + CELL_H <= old(canvas)@.height,
    ensures
        final(canvas).wf(),
        final(canvas)@.width == old(canvas)@.width,
        final(canvas)@.height == old(canvas)@.height,
        final(canvas)@.pixels == thumb_filled(
            old(canvas)@.pixels,
            old(canvas)@.width as int,
            x as int,
            y as int,
            thumb@,
        ),
{
    proof {
        RgbaImage::lemma_wf(canvas);
    }
    let ghost orig = canvas@.pixels;
    let ghost w = canvas@.width as int;
    let ghost h = canvas@.height as int;
    let tw: u32 = thumb.width();
    let th: u32 = thumb.height();
    let mut dy: u32 = 0;
    while dy < CELL_H
        invariant
            canvas.wf(),
            thumb.wf(),
            tw == thumb@.width,
            th == thumb@.height,
            tw > 0,
            th > 0,
            canvas@.width == w,
            canvas@.height == h,
            canvas@.pixels.len() == w * h,
            orig.len() == w * h,
            x + CELL_W <= w <= u32::MAX,
            y + CELL_H <= h <= u32::MAX,
            0 <= dy <= CELL_H,
            forall|i: int|
                0 <= i < w * h ==> #[trigger] canvas@.pixels[i] == if in_cell(x as int, y as int, i % w, i / w)
                    && i / w - y < dy {
                    thumb_shade(thumb@, i % w - x, i / w - y)
                } else {
                    orig[i]
                },
        decreases CELL_H - dy,
    {
        let mut dx: u32 = 0;
        while dx < CELL_W
            invariant
                canvas.wf(),
                thumb.wf(),
                tw == thumb@.width,
                th == thumb@.height,
                tw > 0,
                th > 0,
                canvas@.width == w,
                canvas@.height == h,
                canvas@.pixels.len() == w * h,
                orig.len() == w * h,
                x + CELL_W <= w <= u32::MAX,
                y + CELL_H <= h <= u32::MAX,
                0 <= dy < CELL_H,
                0 <= dx <= CELL_W,
                forall|i: int|
                    0 <= i < w * h ==> #[trigger] canvas@.pixels[i] == if in_cell(
                        x as int,
                        y as int,
                        i % w,
                        i / w,
                    ) && (i / w - y < dy || (i / w - y == dy && i % w - x < dx)) {
                        thumb_shade(thumb@, i % w - x, i / w - y)
                    } else {
                        orig[i]
                    },
            decreases CELL_W - dx,
        {
            let sx0: u32 = dx.wrapping_mul(tw) / CELL_W;
            let sx: u32 = if sx0 < tw - 1 { sx0 } else { tw - 1 };
            let sy0: u32 = dy.wrapping_mul(th) / CELL_H;
            let sy: u32 = if sy0 < th - 1 { sy0 } else { th - 1 };
            let px: u8 = thumb.get_pixel(sx, sy);
            assert([px, px, px, 255u8] == thumb_shade(thumb@, dx as int, dy as int));
            canvas.put_pixel(x + dx, y + dy, [px, px, px, 255]);
            proof {
                lemma_pixel_index_bounds((x + dx) as int, (y + dy) as int, w, h);
                assert forall|i: int| 0 <= i < w * h implies #[trigger] canvas@.pixels[i] == if in_cell(
                    x as int,
                    y as int,
                    i % w,
                    i / w,
                ) && (i / w - y < dy || (i / w - y == dy && i % w - x < dx + 1)) {
                    thumb_shade(thumb@, i % w - x, i / w - y)
                } else {
                    orig[i]
                } by {
                    lemma_index_coords(i, w, h);
                }
            }
            dx = dx + 1;
        }
        dy = dy + 1;
    }
    proof {
        let target = thumb_filled(orig, w, x as int, y as int, thumb@);
        assert forall|i: int| 0 <= i < w * h implies #[trigger] canvas@.pixels[i] == target[i] by {
            lemma_index_coords(i, w, h);
        }
        assert(canvas@.pixels =~= target);
    }
}

/// The grey image a decoded frame `(width, height, colour code, samples)`
/// stands for, or the reason it stands for none.
pub open spec fn gray_from_decoded(frame: (u32, u32, u8, Seq<u8>)) -> Result<GrayView, PngError> {
    let (w, h, code, data) = frame;
    if code != PNG_GRAYSCALE {
        Err(PngError::NotGrayscale)
    } else if w * h <= usize::MAX && w * h <= data.len() {
        Ok(GrayView { width: w as nat, height: h as nat, pixels: data.subrange(0, w * h) })
    } else {
        Err(PngError::GrayscaleBuffer)
    }
}

/// The grey image of a decoded frame, or why there is none.
pub fn gray_from_frame(frame: PngFrame) -> (res: Result<GrayImage, PngError>)
    ensures
        match gray_from_decoded((frame.width, frame.height, frame.color_code, frame.data@)) {
            Ok(v) => res matches Ok(img) && img.wf() && img@ == v,
            Err(e) => res == Err::<GrayImage, PngError>(e),
        },
{
    if frame.color_code != PNG_GRAYSCALE {
        return Err(PngError::NotGrayscale);
    }
    let ghost data = frame.data@;
    match GrayImage::from_raw(frame.width, frame.height, frame.data) {
        Some(img) => Ok(img),
        None => Err(PngError::GrayscaleBuffer),
    }
}

/// What decoding a preview PNG as a grey image gives.
pub open spec fn decoded_gray(png: Seq<u8>) -> Result<GrayView, PngError> {
    match png_decoded(png) {
        Some(frame) => gray_from_decoded(frame),
        None => Err(PngError::Decode),
    }
}

/// Decode a preview PNG, which must be single-channel grey.
pub fn decode_png_gray(png: &[u8]) -> (res: Result<GrayImage, PngError>)
    ensures
        match decoded_gray(png@) {
            Ok(v) => res matches Ok(img) && img.wf() && img@ == v && v.width > 0 && v.height > 0,
            Err(e) => res == Err::<GrayImage, PngError>(e),
        },
{
    match decode_png(png) {
        Some(frame) => gray_from_frame(frame),
        None => Err(PngError::Decode),
    }
}

/// Encode the grid as an 8-bit RGBA PNG.
pub fn encode_rgba_png(img: &RgbaImage) -> (res: Result<Vec<u8>, PngError>)
    requires
        img.wf(),
        img@.width * img@.height * 4 + img@.height <= usize::MAX,
    ensures
        match png_encoded(img@.width as u32, img@.height as u32, PngColor::Rgba, flatten_pixels(img@.pixels)) {
            Some(b) => res matches Ok(v) && v@ == b,
            None => res == Err::<Vec<u8>, PngError>(PngError::Encode),
        },
        (img@.width == 0 || img@.height == 0) ==> res == Err::<Vec<u8>, PngError>(PngError::Encode),
{
    proof {
        RgbaImage::lemma_wf(img);
    }
    let raw: Vec<u8> = img.to_raw();
    match encode_png8(img.width(), img.height(), PngColor::Rgba, raw.as_slice()) {
        Some(b) => Ok(b),
        None => Err(PngError::Encode),
    }
}

/// Number of modules in the grid.
pub const GRID_CELLS: usize = 16;

/// Module shown in cell `k` of the grid, counting row by row: the five A
/// modules, the five B modules, then the six C modules.
pub open spec fn grid_camera(k: int) -> CameraId {
    if k == 0 {
        CameraId::A1
    } else if k == 1 {
        CameraId::A2
    } else if k == 2 {
        CameraId::A3
    } else if k == 3 {
        CameraId::A4
    } else if k == 4 {
        CameraId::A5
    } else if k == 5 {
        CameraId::B1
    } else if k == 6 {
        CameraId::B2
    } else if k == 7 {
        CameraId::B3
    } else if k == 8 {
        CameraId::B4
    } else if k == 9 {
        CameraId::B5
    } else if k == 10 {
        CameraId::C1
    } else if k == 11 {
        CameraId::C2
    } else if k == 12 {
        CameraId::C3
    } else if k == 13 {
        CameraId::C4
    } else if k == 14 {
        CameraId::C5
    } else {
        CameraId::C6
    }
}

/// Cell `k` is labelled with the letter of its row (`A`, `B`, `C` from the
/// top) followed by its column counted from one, so the sixteen cells show
/// sixteen different modules.
pub proof fn lemma_grid_cells_show_distinct_modules(i: int, j: int)
    requires
        0 <= i < GRID_CELLS,
        0 <= j < GRID_CELLS,
    ensures
        camera_name(grid_camera(i)) == seq![(65 + grid_row(i)) as char, (49 + grid_col(i)) as char],
        i != j ==> grid_camera(i) != grid_camera(j),
{
    assert(camera_name(grid_camera(i)) =~= seq![(65 + grid_row(i)) as char, (49 + grid_col(i)) as char]);
    assert(camera_name(grid_camera(j)) =~= seq![(65 + grid_row(j)) as char, (49 + grid_col(j)) as char]);
    if grid_camera(i) == grid_camera(j) {
        assert(camera_name(grid_camera(i))[0] == camera_name(grid_camera(j))[0]);
        assert(camera_name(grid_camera(i))[1] == camera_name(grid_camera(j))[1]);
    }
}

/// Every module has a cell of its own in the grid.
pub proof fn lemma_every_module_has_a_cell(c: CameraId)
    ensures
        exists|k: int| 0 <= k < GRID_CELLS && grid_camera(k) == c,
{
    let k: int = match c {
        CameraId::A1 => 0,
        CameraId::A2 => 1,
        CameraId::A3 => 2,
        CameraId::A4 => 3,
        CameraId::A5 => 4,
        CameraId::B1 => 5,
        CameraId::B2 => 6,
        CameraId::B3 => 7,
        CameraId::B4 => 8,
        CameraId::B5 => 9,
        CameraId::C1 => 10,
        CameraId::C2 => 11,
        CameraId::C3 => 12,
        CameraId::C4 => 13,
        CameraId::C5 => 14,
        CameraId::C6 => 15,
    };
    assert(grid_camera(k) == c);
}

/// Number of cells in grid row `r`.
pub open spec fn row_len_spec(r: int) -> int {
    if r < 2 {
        5
    } else {
        6
    }
}

/// Row of cell `k`.
pub open spec fn grid_row(k: int) -> int {
    if k < 5 {
        0
    } else if k < 10 {
        1
    } else {
        2
    }
}

/// Column of cell `k`.
pub open spec fn grid_col(k: int) -> int {
    k - 5 * grid_row(k)
}

/// Left edge of cell `k`.
pub open spec fn cell_x(k: int) -> int {
    PAD + grid_col(k) * (CELL_W + PAD)
}

/// Top edge of cell `k` (its label band; the image area starts `LABEL_H` lower).
pub open spec fn cell_y(k: int) -> int {
    PAD + grid_row(k) * (LABEL_H + CELL_H + PAD)
}

/// Width of the grid: six cells and their gaps.
pub open spec fn grid_width() -> int {
    PAD + 6 * (CELL_W + PAD)
}

/// Height of the grid: three rows of label, image and gap.
pub open spec fn grid_height() -> int {
    PAD + 3 * (LABEL_H + CELL_H + PAD)
}

/// Background colour of the grid.
pub open spec fn background() -> [u8; 4] {
    [28u8, 28u8, 32u8, 255u8]
}

/// What a cell shows: whether a preview was supplied for its module, and the
/// preview's grey image when it decoded.
pub struct CellThumb {
    pub present: bool,
    pub image: Option<GrayImage>,
}

/// A cell's preview, if any, is a well-formed image of at least one pixel.
pub open spec fn cell_ok(cell: CellThumb) -> bool {
    match cell.image {
        Some(img) => img.wf() && img@.width > 0 && img@.height > 0,
        None => true,
    }
}

/// Abstract content of a cell.
pub struct CellView {
    pub present: bool,
    pub image: Option<GrayView>,
}

/// Abstract content of each cell.
pub open spec fn cell_views(cells: Seq<CellThumb>) -> Seq<CellView> {
    Seq::new(
        cells.len(),
        |k: int|
            CellView {
                present: cells[k].present,
                image: match cells[k].image {
                    Some(img) => Some(img@),
                    None => None,
                },
            },
    )
}

/// `pixels` of the grid after cell `k` is drawn: its label, then its preview
/// or the no-preview pattern.
pub open spec fn cell_drawn(
    pixels: Seq<[u8; 4]>,
    k: int,
    reference: Option<CameraId>,
    cell: CellView,
) -> Seq<[u8; 4]> {
    let cam = grid_camera(k);
    let is_ref = reference == Some(cam);
    let labelled = text_painted(
        pixels,
        grid_width(),
        label_text(camera_name(cam), is_ref),
        cell_x(k) + 4,
        cell_y(k) + 2,
        label_color(is_ref, cell.present),
    );
    match cell.image {
        Some(img) => thumb_filled(labelled, grid_width(), cell_x(k), cell_y(k) + LABEL_H, img),
        None => missing_filled(labelled, grid_width(), cell_x(k), cell_y(k) + LABEL_H),
    }
}

/// The grid after its first `n` cells are drawn on the background.
pub open spec fn grid_drawn(reference: Option<CameraId>, cells: Seq<CellView>, n: int) -> Seq<[u8; 4]>
    decreases n,
{
    if n <= 0 {
        Seq::new((grid_width() * grid_height()) as nat, |i: int| background())
    } else {
        cell_drawn(grid_drawn(reference, cells, n - 1), n - 1, reference, cells[n - 1])
    }
}

/// Module in row `row`, column `col` of the grid.
fn grid_cell(row: usize, col: usize) -> (c: CameraId)
    requires
        row < 3,
        col < row_len_spec(row as int),
    ensures
        c == grid_camera(5 * row + col),
{
    if row == 0 {
        if col == 0 {
            CameraId::A1
        } else if col == 1 {
            CameraId::A2
        } else if col == 2 {
            CameraId::A3
        } else if col == 3 {
            CameraId::A4
        } else {
            CameraId::A5
        }
    } else if row == 1 {
        if col == 0 {
            CameraId::B1
        } else if col == 1 {
            CameraId::B2
        } else if col == 2 {
            CameraId::B3
        } else if col == 3 {
            CameraId::B4
        } else {
            CameraId::B5
        }
    } else {
        if col == 0 {
            CameraId::C1
        } else if col == 1 {
            CameraId::C2
        } else if col == 2 {
            CameraId::C3
        } else if col == 3 {
            CameraId::C4
        } else if col == 4 {
            CameraId::C5
        } else {
            CameraId::C6
        }
    }
}

/// Number of cells in grid row `r`.
fn row_len(r: usize) -> (n: usize)
    ensures
        n == row_len_spec(r as int),
{
    if r < 2 {
        5
    } else {
        6
    }
}

/// Draw the contact sheet from already decoded cell contents, one entry per
/// module in grid order: every module gets a labelled cell whether or not it
/// has a preview, and the reference module's label is marked.
pub fn render_grid(reference: Option<CameraId>, cells: &[CellThumb]) -> (canvas: RgbaImage)
    requires
        cells@.len() == GRID_CELLS,
        forall|k: int|
            0 <= k < cells@.len() ==> cell_ok(#[trigger] cells@[k]),
    ensures
        canvas.wf(),
        canvas@.width == grid_width(),
        canvas@.height == grid_height(),
        canvas@.pixels == grid_drawn(reference, cell_views(cells@), GRID_CELLS as int),
{
    let mut cols: usize = 0;
    let mut r: usize = 0;
    while r < 3
        invariant
            0 <= r <= 3,
            cols == if r == 0 { 0usize } else if r < 3 { 5usize } else { 6usize },
        decreases 3 - r,
    {
        let n: usize = row_len(r);
        if n > cols {
            cols = n;
        }
        r = r + 1;
    }
    assert(CELL_W + PAD == 168 && LABEL_H + CELL_H + PAD == 146 && PAD == 8);
    let rows: u32 = 3;
    let width: u32 = PAD + (cols as u32) * (CELL_W + PAD);
    let height: u32 = PAD + rows * (LABEL_H + CELL_H + PAD);
    assert(width == 1016 && height == 446);
    let mut canvas: RgbaImage = RgbaImage::filled(width, height, [28, 28, 32, 255]);
    let ghost views = cell_views(cells@);
    assert(canvas@.pixels =~= grid_drawn(reference, views, 0));
    let mut k: usize = 0;
    let mut row_i: usize = 0;
    while row_i < 3
        invariant
            0 <= row_i <= 3,
            k == if row_i <= 2 { 5 * row_i } else { 16 },
            width == grid_width(),
            height == grid_height(),
            canvas.wf(),
            canvas@.width == width,
            canvas@.height == height,
            cells@.len() == GRID_CELLS,
            views == cell_views(cells@),
            forall|j: int|
                0 <= j < cells@.len() ==> cell_ok(#[trigger] cells@[j]),
            canvas@.pixels == grid_drawn(reference, views, k as int),
        decreases 3 - row_i,
    {
        assert(CELL_W + PAD == 168 && LABEL_H + CELL_H + PAD == 146 && PAD == 8);
        let y0: u32 = PAD + (row_i as u32) * (LABEL_H + CELL_H + PAD);
        let n: usize = row_len(row_i);
        let mut col_i: usize = 0;
        while col_i < n
            invariant
                0 <= row_i < 3,
                n == row_len_spec(row_i as int),
                0 <= col_i <= n,
                k == 5 * row_i + col_i,
                y0 == PAD + row_i * (LABEL_H + CELL_H + PAD),
                width == grid_width(),
                height == grid_height(),
                canvas.wf(),
                canvas@.width == width,
                canvas@.height == height,
                cells@.len() == GRID_CELLS,
                views == cell_views(cells@),
                forall|j: int|
                    0 <= j < cells@.len() ==> cell_ok(#[trigger] cells@[j]),
                canvas@.pixels == grid_drawn(reference, views, k as int),
            decreases n - col_i,
        {
            assert(col_i < 6);
            assert((col_i as u32) * (CELL_W + PAD) <= 840) by (nonlinear_arith)
                requires
                    col_i < 6,
                    CELL_W + PAD == 168,
            ;
            let x0: u32 = PAD + (col_i as u32) * (CELL_W + PAD);
            let cam: CameraId = grid_cell(row_i, col_i);
            let id: &str = cam.name();
            let camera: Option<CameraId> = parse_camera_id(id);
            proof {
                lemma_camera_name_round_trip(cam);
            }
            let is_ref: bool = match (reference, camera) {
                (Some(a), Some(b)) => a == b,
                (None, None) => true,
                _ => false,
            };
            let present: bool = cells[k].present;
            proof {
                reveal_strlit(" ref");
                assert(grid_row(k as int) == row_i && grid_col(k as int) == col_i);
            }
            draw_label(&mut canvas, x0, y0, id, is_ref, present);
            let thumb_y: u32 = y0 + LABEL_H;
            match &cells[k].image {
                Some(img) => {
                    blit_thumb(&mut canvas, x0, thumb_y, img);
                },
                None => {
                    draw_missing(&mut canvas, x0, thumb_y);
                },
            }
            k = k + 1;
            col_i = col_i + 1;
        }
        row_i = row_i + 1;
    }
    canvas
}

/// Index of the last of the first `n` previews that belongs to `cam`.
pub open spec fn last_thumb(thumbs: Seq<(CameraId, Vec<u8>)>, cam: CameraId, n: int) -> Option<int>
    decreases n,
{
    if n <= 0 {
        None
    } else if thumbs[n - 1].0 == cam {
        Some(n - 1)
    } else {
        last_thumb(thumbs, cam, n - 1)
    }
}

/// What the cell of `cam` shows given the supplied previews: the module is
/// present when any preview belongs to it, and the last such preview is
/// shown when it decodes as a grey image.
pub open spec fn thumb_cell(thumbs: Seq<(CameraId, Vec<u8>)>, cam: CameraId) -> CellView {
    match last_thumb(thumbs, cam, thumbs.len() as int) {
        Some(j) => CellView {
            present: true,
            image: match decoded_gray(thumbs[j].1@) {
                Ok(v) => Some(v),
                Err(_) => None,
            },
        },
        None => CellView { present: false, image: None },
    }
}

/// What each cell shows given the supplied previews, in grid order.
pub open spec fn thumb_cells(thumbs: Seq<(CameraId, Vec<u8>)>) -> Seq<CellView> {
    Seq::new(GRID_CELLS as nat, |k: int| thumb_cell(thumbs, grid_camera(k)))
}

/// Module shown in cell `k`.
fn grid_camera_at(k: usize) -> (c: CameraId)
    requires
        k < GRID_CELLS,
    ensures
        c == grid_camera(k as int),
{
    if k < 5 {
        grid_cell(0, k)
    } else if k < 10 {
        grid_cell(1, k - 5)
    } else {
        grid_cell(2, k - 10)
    }
}

/// Draw the contact sheet from per-module preview PNGs: every module gets a
/// labelled cell, filled with its (last) preview when that decodes as a grey
/// image and with a no-preview pattern otherwise; the reference module's
/// label is marked.
pub fn compose_grid(reference: Option<CameraId>, thumbs: &[(CameraId, Vec<u8>)]) -> (canvas: RgbaImage)
    ensures
        canvas.wf(),
        canvas@.width == grid_width(),
        canvas@.height == grid_height(),
        canvas@.pixels == grid_drawn(reference, thumb_cells(thumbs@), GRID_CELLS as int),
{
    let mut cells: Vec<CellThumb> = Vec::new();
    let ghost target = thumb_cells(thumbs@);
    let mut k: usize = 0;
    while k < GRID_CELLS
        invariant
            0 <= k <= GRID_CELLS,
            target == thumb_cells(thumbs@),
            cells@.len() == k,
            forall|j: int| 0 <= j < k ==> cell_ok(#[trigger] cells@[j]),
            forall|j: int| 0 <= j < k ==> #[trigger] cell_views(cells@)[j] == target[j],
        decreases GRID_CELLS - k,
    {
        let cam: CameraId = grid_camera_at(k);
        let mut last: Option<usize> = None;
        let mut i: usize = 0;
        while i < thumbs.len()
            invariant
                0 <= i <= thumbs@.len(),
                last == match last_thumb(thumbs@, cam, i as int) {
                    Some(j) => Some(j as usize),
                    None => None::<usize>,
                },
                forall|j: int| #![auto] last_thumb(thumbs@, cam, i as int) == Some(j) ==> 0 <= j < i,
            decreases thumbs@.len() - i,
        {
            if thumbs[i].0 == cam {
                last = Some(i);
            }
            i = i + 1;
        }
        let cell: CellThumb = match last {
            Some(j) => {
                let image: Option<GrayImage> = match decode_png_gray(thumbs[j].1.as_slice()) {
                    Ok(img) => Some(img),
                    Err(_) => None,
                };
                CellThumb { present: true, image }
            },
            None => CellThumb { present: false, image: None },
        };
        let ghost prev = cells@;
        cells.push(cell);
        proof {
            assert forall|j: int| 0 <= j < k + 1 implies #[trigger] cell_views(cells@)[j] == target[j] by {
                if j < k {
                    assert(cells@[j] == prev[j]);
                    assert(cell_views(prev)[j] == target[j]);
                }
            }
        }
        k = k + 1;
    }
    proof {
        assert(cell_views(cells@) =~= target);
    }
    render_grid(reference, cells.as_slice())
}

/// Shade a cell's image area gets at offset `(dx, dy)`.
pub open spec fn cell_shade(cell: CellView, dx: int, dy: int) -> [u8; 4] {
    match cell.image {
        Some(img) => thumb_shade(img, dx, dy),
        None => missing_shade(dx, dy),
    }
}

proof fn lemma_cell_origin(k: int)
    requires
        0 <= k < GRID_CELLS,
    ensures
        0 <= grid_row(k) <= 2,
        0 <= grid_col(k) < row_len_spec(grid_row(k)),
        cell_x(k) == 8 + 168 * grid_col(k),
        cell_y(k) == 8 + 146 * grid_row(k),
        cell_x(k) + CELL_W + PAD <= grid_width(),
        cell_y(k) + LABEL_H + CELL_H + PAD <= grid_height(),
{
    assert(CELL_W == 160 && CELL_H == 120 && PAD == 8 && LABEL_H == 18 && GRID_CELLS == 16);
    if k < 5 {
    } else if k < 10 {
    } else {
    }
}

proof fn lemma_grid_len(reference: Option<CameraId>, cells: Seq<CellView>, n: int)
    ensures
        grid_drawn(reference, cells, n).len() == grid_width() * grid_height(),
    decreases n,
{
    if n > 0 {
        lemma_grid_len(reference, cells, n - 1);
    }
}

proof fn lemma_cell_kept(
    reference: Option<CameraId>,
    cells: Seq<CellView>,
    k: int,
    n: int,
    px: int,
    py: int,
)
    requires
        0 <= k < n <= GRID_CELLS,
        cells.len() == GRID_CELLS,
        in_cell(cell_x(k), cell_y(k) + LABEL_H, px, py),
    ensures
        grid_drawn(reference, cells, n)[pixel_index(px, py, grid_width())]
            == grid_drawn(reference, cells, k + 1)[pixel_index(px, py, grid_width())],
    decreases n,
{
    let w = grid_width();
    let h = grid_height();
    let i = pixel_index(px, py, w);
    assert(CELL_W == 160 && CELL_H == 120 && PAD == 8 && LABEL_H == 18);
    lemma_cell_origin(k);
    lemma_pixel_index_bounds(px, py, w, h);
    lemma_grid_len(reference, cells, n);
    if n > k + 1 {
        lemma_cell_kept(reference, cells, k, n - 1, px, py);
        let j = n - 1;
        assert(j != k);
        lemma_cell_origin(j);
        lemma_cell_origin(k);
        // Other cells' labels stay in their label bands and their image areas
        // do not meet this one.
        assert(CELL_W == 160 && CELL_H == 120 && PAD == 8 && LABEL_H == 18);
        assert(!(cell_y(j) + 2 <= py < cell_y(j) + 10));
        if grid_row(j) == grid_row(k) {
            assert(grid_col(j) != grid_col(k));
            assert(cell_x(j) + CELL_W <= cell_x(k) || cell_x(k) + CELL_W <= cell_x(j));
        } else {
            assert(cell_y(j) + CELL_H + LABEL_H <= cell_y(k) || cell_y(k) + CELL_H + LABEL_H <= cell_y(j));
        }
        assert(!in_cell(cell_x(j), cell_y(j) + LABEL_H, px, py));
    }
}

/// Every module gets its own cell: whatever the other cells hold, the image
/// area of module `k`'s cell shows that module's preview when it has one and
/// the no-preview pattern otherwise.
pub proof fn lemma_cell_shows_its_module(
    reference: Option<CameraId>,
    cells: Seq<CellView>,
    k: int,
    px: int,
    py: int,
)
    requires
        cells.len() == GRID_CELLS,
        0 <= k < GRID_CELLS,
        in_cell(cell_x(k), cell_y(k) + LABEL_H, px, py),
    ensures
        grid_drawn(reference, cells, GRID_CELLS as int)[pixel_index(px, py, grid_width())]
            == cell_shade(cells[k], px - cell_x(k), py - (cell_y(k) + LABEL_H)),
{
    let w = grid_width();
    let h = grid_height();
    assert(CELL_W == 160 && CELL_H == 120 && PAD == 8 && LABEL_H == 18 && GRID_CELLS == 16);
    lemma_cell_origin(k);
    lemma_pixel_index_bounds(px, py, w, h);
    lemma_grid_len(reference, cells, k);
    lemma_cell_kept(reference, cells, k, GRID_CELLS as int, px, py);
}

} // verus!
