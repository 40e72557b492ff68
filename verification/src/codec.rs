//! PNG encoding and decoding, done by the `png` crate, and base64 text,
//! done by the `base64` crate.

use base64::Engine;
use vstd::prelude::*;

verus! {

/// A decoded PNG frame: its size, its PNG colour-type code and its samples,
/// row by row.
pub struct PngFrame {
    pub width: u32,
    pub height: u32,
    pub color_code: u8,
    pub data: Vec<u8>,
}

/// Ways an image fails to pass through PNG.
#[derive(Debug, Clone, Copy, PartialEq, Eq, Structural)]
pub enum PngError {
    /// The stream is not a PNG the decoder accepts.
    Decode,
    /// The stream decodes to something other than single-channel grey.
    NotGrayscale,
    /// The decoded grey samples do not cover the decoded size.
    GrayscaleBuffer,
    /// The encoder refused the image.
    Encode,
}

/// PNG colour-type code of single-channel grey images.
pub const PNG_GRAYSCALE: u8 = 0;

/// What the `png` crate decodes from a PNG stream with its default settings:
/// the first frame's width, height, colour-type code and samples, or `None`
/// when it rejects the stream.
pub uninterp spec fn png_decoded(png: Seq<u8>) -> Option<(u32, u32, u8, Seq<u8>)>;

/// Colour layout of an 8-bit image handed to the PNG encoder.
#[derive(Debug, Clone, Copy, PartialEq, Eq, Structural)]
pub enum PngColor {
    Grayscale,
    Rgb,
    Rgba,
}

/// Samples per pixel of a colour layout.
pub open spec fn png_samples(c: PngColor) -> nat {
    match c {
        PngColor::Grayscale => 1,
        PngColor::Rgb => 3,
        PngColor::Rgba => 4,
    }
}

/// What the `png` crate's encoder, with its default settings, gives for an
/// 8-bit image of the given size, colour layout and samples written into
/// memory: the PNG stream, or `None` when it refuses the image.
pub uninterp spec fn png_encoded(width: u32, height: u32, color: PngColor, data: Seq<u8>) -> Option<Seq<u8>>;

/// Decodes the first frame of `png` with `png::Decoder` (`read_info`, then
/// `next_frame` into a buffer of `output_buffer_size` bytes, cut to the
/// frame's `buffer_size`). Claims that the result is `png_decoded(png)` and,
/// as the crate rejects a header with a zero dimension, that a decoded frame
/// is at least one pixel wide and high.
#[verifier::external_body]
pub(crate) fn decode_png(png: &[u8]) -> (res: Option<PngFrame>)
    ensures
        match res {
            Some(f) => png_decoded(png@) == Some((f.width, f.height, f.color_code, f.data@))
                && f.width > 0 && f.height > 0,
            None => png_decoded(png@) is None,
        },
{
    let mut reader = png::Decoder::new(png).read_info().ok()?;
    let mut buf = vec![0u8; reader.output_buffer_size()];
    let info = reader.next_frame(&mut buf).ok()?;
    buf.truncate(info.buffer_size());
    Some(PngFrame { width: info.width, height: info.height, color_code: info.color_type as u8, data: buf })
}

/// Encodes `data` as an 8-bit PNG into memory with `png::Encoder`
/// (`set_color`, `set_depth`, `write_header`, then `write_image_data`).
/// Claims that the outcome, stream or refusal, is `png_encoded(width, height,
/// color, data)`, and that the image is refused for a zero dimension (the
/// header is refused) or for a sample count other than `png_samples(color)`
/// per pixel (the image data is refused). Whether the encoder refuses
/// anything else is not claimed.
#[verifier::external_body]
pub(crate) fn encode_png8(width: u32, height: u32, color: PngColor, data: &[u8]) -> (res: Option<Vec<u8>>)
    requires
        width * height * 4 + height <= usize::MAX,
    ensures
        match res {
            Some(b) => png_encoded(width, height, color, data@) == Some(b@),
            None => png_encoded(width, height, color, data@) is None,
        },
        (width == 0 || height == 0 || data@.len() != width * height * png_samples(color)) ==> res is None,
{
    let color = match color {
        PngColor::Grayscale => png::ColorType::Grayscale,
        PngColor::Rgb => png::ColorType::Rgb,
        PngColor::Rgba => png::ColorType::Rgba,
    };
    let mut buf = Vec::new();
    {
        let mut enc = png::Encoder::new(&mut buf, width, height);
        enc.set_color(color);
        enc.set_depth(png::BitDepth::Eight);
        let mut writer = enc.write_header().ok()?;
        writer.write_image_data(data).ok()?;
    }
    Some(buf)
}

/// Character for the 6-bit value `v` in the standard base64 alphabet
/// (`A`-`Z`, `a`-`z`, `0`-`9`, `+`, `/`).
pub open spec fn base64_char(v: int) -> char {
    if v < 26 {
        (65 + v) as char
    } else if v < 52 {
        (97 + v - 26) as char
    } else if v < 62 {
        (48 + v - 52) as char
    } else if v == 62 {
        '+'
    } else {
        '/'
    }
}

/// The sixty-four 6-bit values map to sixty-four different characters, none
/// of them the padding character `=`.
pub proof fn lemma_base64_chars_distinct(v: int, w: int)
    requires
        0 <= v < 64,
        0 <= w < 64,
    ensures
        base64_char(v) == base64_char(w) ==> v == w,
        base64_char(v) != '=',
{
    assert(base64_char(v) as int == if v < 26 {
        65 + v
    } else if v < 52 {
        97 + v - 26
    } else if v < 62 {
        48 + v - 52
    } else if v == 62 {
        43
    } else {
        47
    });
    assert(base64_char(w) as int == if w < 26 {
        65 + w
    } else if w < 52 {
        97 + w - 26
    } else if w < 62 {
        48 + w - 52
    } else if w == 62 {
        43
    } else {
        47
    });
}

/// Standard base64 with `=` padding (RFC 4648, section 4): every three bytes
/// become four characters of six bits each, most significant first; a final
/// one or two bytes become two or three characters and are padded to four.
pub open spec fn base64_encoded(b: Seq<u8>) -> Seq<char>
    decreases b.len(),
{
    if b.len() == 0 {
        seq![]
    } else if b.len() == 1 {
        seq![base64_char(b[0] as int / 4), base64_char((b[0] as int % 4) * 16), '=', '=']
    } else if b.len() == 2 {
        seq![
            base64_char(b[0] as int / 4),
            base64_char((b[0] as int % 4) * 16 + b[1] as int / 16),
            base64_char((b[1] as int % 16) * 4),
            '=',
        ]
    } else {
        seq![
            base64_char(b[0] as int / 4),
            base64_char((b[0] as int % 4) * 16 + b[1] as int / 16),
            base64_char((b[1] as int % 16) * 4 + b[2] as int / 64),
            base64_char(b[2] as int % 64),
        ] + base64_encoded(b.subrange(3, b.len() as int))
    }
}

/// Base64 text is four characters for every started group of three bytes.
pub proof fn lemma_base64_length(b: Seq<u8>)
    ensures
        base64_encoded(b).len() == 4 * ((b.len() + 2) / 3),
    decreases b.len(),
{
    if b.len() >= 3 {
        lemma_base64_length(b.subrange(3, b.len() as int));
    }
}

/// Encodes `bytes` with `base64::engine::general_purpose::STANDARD`
/// (`Engine::encode`). Claims that the text is the standard padded base64 of
/// `bytes`, as RFC 4648 and the crate's documentation define it. The crate
/// panics when the encoded length overflows, which `requires` rules out.
#[verifier::external_body]
pub(crate) fn base64_standard(bytes: &[u8]) -> (s: String)
    requires
        4 * ((bytes@.len() + 2) / 3) <= usize::MAX,
    ensures
        s@ == base64_encoded(bytes@),
{
    base64::engine::general_purpose::STANDARD.encode(bytes)
}

} // verus!
