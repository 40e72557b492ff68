//! In-place orientation fixes for sensor and RGB buffers.

use vstd::prelude::*;
use vstd::arithmetic::div_mod::{lemma_fundamental_div_mod, lemma_fundamental_div_mod_converse};
use vstd::arithmetic::mul::{lemma_mul_inequality, lemma_mul_is_distributive_add_other_way};

verus! {

/// Number of whole pixels of `channels` samples each in `len` samples.
pub open spec fn whole_pixels(len: nat, channels: nat) -> nat {
    len / channels
}

/// Sample `i` of `data` after a half turn of its interleaved pixels.
///
/// Whole pixels trade places end for end with their channel order kept; samples
/// past the last whole pixel take the value of the first sample. With one
/// channel this is the reversed sequence.
pub open spec fn rotated_sample<T>(data: Seq<T>, channels: nat, i: int) -> T {
    let pixels = whole_pixels(data.len(), channels) as int;
    let ch = channels as int;
    if i < pixels * ch {
        data[(pixels - 1 - i / ch) * ch + i % ch]
    } else {
        data[0]
    }
}

/// `data` after a half turn of its interleaved pixels.
pub open spec fn rotated<T>(data: Seq<T>, channels: nat) -> Seq<T> {
    Seq::new(data.len(), |i: int| rotated_sample(data, channels, i))
}

proof fn lemma_pixel_index(p: int, c: int, ch: int, pixels: int)
    requires
        0 <= p < pixels,
        0 <= c < ch,
    ensures
        (p * ch + c) / ch == p,
        (p * ch + c) % ch == c,
        p * ch + c < pixels * ch,
        0 <= p * ch,
        (pixels - 1 - p) * ch + c < pixels * ch,
        0 <= (pixels - 1 - p) * ch,
{
    lemma_fundamental_div_mod_converse(p * ch + c, ch, p, c);
    lemma_mul_inequality(p + 1, pixels, ch);
    lemma_mul_is_distributive_add_other_way(ch, p, 1);
    lemma_mul_inequality(pixels - p, pixels, ch);
    lemma_mul_is_distributive_add_other_way(ch, pixels - 1 - p, 1);
    lemma_mul_inequality(0, p, ch);
    lemma_mul_inequality(0, pixels - 1 - p, ch);
}

/// With one channel a half turn is a plain reversal.
pub proof fn lemma_rotate_180_single_channel<T>(data: Seq<T>)
    ensures
        rotated(data, 1) == data.reverse(),
{
    assert(rotated(data, 1) =~= data.reverse());
}

/// A half turn done twice gives back any buffer made of whole pixels.
pub proof fn lemma_rotate_180_twice<T>(data: Seq<T>, channels: nat)
    requires
        channels > 0,
        data.len() % channels == 0,
    ensures
        rotated(rotated(data, channels), channels) == data,
{
    let ch = channels as int;
    let pixels = whole_pixels(data.len(), channels) as int;
    lemma_fundamental_div_mod(data.len() as int, ch);
    assert(pixels * ch == data.len()) by {
        assert(data.len() == ch * pixels + 0);
    }
    let once = rotated(data, channels);
    assert forall|i: int| 0 <= i < data.len() implies #[trigger] rotated(once, channels)[i] == data[i] by {
        let p = i / ch;
        let c = i % ch;
        lemma_fundamental_div_mod(i, ch);
        assert(i == p * ch + c) by {
            vstd::arithmetic::mul::lemma_mul_is_commutative(p, ch);
        }
        assert(0 <= p < pixels) by {
            if p >= pixels {
                lemma_mul_inequality(pixels, p, ch);
            }
            if p < 0 {
                lemma_mul_inequality(p, -1, ch);
            }
        }
        lemma_pixel_index(p, c, ch, pixels);
        lemma_pixel_index(pixels - 1 - p, c, ch, pixels);
    }
    assert(rotated(once, channels) =~= data);
}

/// The pixels of an interleaved buffer: whole groups of `channels` samples,
/// in order.
pub open spec fn pixels_of<T>(data: Seq<T>, channels: nat) -> Seq<Seq<T>> {
    Seq::new(
        whole_pixels(data.len(), channels),
        |p: int| data.subrange(p * channels, p * channels + channels),
    )
}

/// A half turn lists the pixels of the buffer in reverse order, each pixel's
/// channels kept in their order, and keeps the buffer's length.
pub proof fn lemma_rotate_180_reverses_pixels<T>(data: Seq<T>, channels: nat)
    requires
        channels > 0,
    ensures
        rotated(data, channels).len() == data.len(),
        pixels_of(rotated(data, channels), channels) == pixels_of(data, channels).reverse(),
{
    let ch = channels as int;
    let pixels = whole_pixels(data.len(), channels) as int;
    let r = rotated(data, channels);
    lemma_fundamental_div_mod(data.len() as int, ch);
    assert(pixels * ch <= data.len()) by {
        assert(data.len() as int == ch * pixels + (data.len() as int) % ch);
        vstd::arithmetic::mul::lemma_mul_is_commutative(ch, pixels);
    }
    let lhs = pixels_of(r, channels);
    let rhs = pixels_of(data, channels).reverse();
    assert forall|p: int| 0 <= p < pixels implies #[trigger] lhs[p] =~= rhs[p] by {
        let q = pixels - 1 - p;
        lemma_pixel_index(p, 0, ch, pixels);
        lemma_pixel_index(q, 0, ch, pixels);
        lemma_mul_is_distributive_add_other_way(ch, p, 1);
        lemma_mul_is_distributive_add_other_way(ch, q, 1);
        lemma_mul_inequality(p + 1, pixels, ch);
        lemma_mul_inequality(q + 1, pixels, ch);
        assert forall|c: int| 0 <= c < ch implies #[trigger] lhs[p][c] == rhs[p][c] by {
            lemma_pixel_index(p, c, ch, pixels);
            assert(lhs[p][c] == r[p * ch + c]);
            assert(rhs[p][c] == data[q * ch + c]);
        }
    }
    assert(lhs =~= rhs);
}

/// Turn an interleaved buffer of `channels`-sample pixels by 180 degrees.
///
/// With one channel the buffer is simply reversed (an empty buffer is fine).
/// Otherwise whole pixels are reversed in order with their channels kept, and
/// any samples past the last whole pixel are overwritten with the first sample.
pub fn rotate_180<T: Copy>(data: &mut [T], channels: usize)
    requires
        channels > 0,
        channels == 1 || old(data)@.len() > 0,
    ensures
        final(data)@ == rotated(old(data)@, channels as nat),
{
    let ghost orig = data@;
    let n: usize = data.len();
    if channels == 1 {
        let mut i: usize = 0;
        while i < n / 2
            invariant
                n == orig.len(),
                data@.len() == n,
                0 <= i <= n / 2,
                forall|k: int| 0 <= k < i ==> #[trigger] data@[k] == orig[n - 1 - k],
                forall|k: int| n - i <= k < n ==> #[trigger] data@[k] == orig[n - 1 - k],
                forall|k: int| i <= k < n - i ==> #[trigger] data@[k] == orig[k],
            decreases n / 2 - i,
        {
            let a: T = data[i];
            let b: T = data[n - 1 - i];
            data[i] = b;
            data[n - 1 - i] = a;
            i = i + 1;
        }
        assert(data@ =~= rotated(orig, 1));
        return;
    }
    let pixels: usize = n / channels;
    proof {
        lemma_fundamental_div_mod(n as int, channels as int);
        lemma_mul_inequality(pixels as int, pixels as int, channels as int);
    }
    assert(pixels * channels <= n) by {
        assert(n == channels * pixels + n % channels);
    }
    let first: T = data[0];
    let mut tmp: Vec<T> = Vec::new();
    let mut k: usize = 0;
    while k < n
        invariant
            0 <= k <= n,
            tmp@.len() == k,
            forall|m: int| 0 <= m < k ==> #[trigger] tmp@[m] == first,
        decreases n - k,
    {
        tmp.push(first);
        k = k + 1;
    }

    let mut p: usize = 0;
    while p < pixels
        invariant
            n == orig.len(),
            data@ == orig,
            channels > 1,
            pixels == whole_pixels(n as nat, channels as nat),
            pixels * channels <= n,
            first == orig[0],
            0 <= p <= pixels,
            tmp@.len() == n,
            forall|m: int| 0 <= m < p * channels ==> #[trigger] tmp@[m] == rotated_sample(orig, channels as nat, m),
            forall|m: int| p * channels <= m < n ==> #[trigger] tmp@[m] == first,
        decreases pixels - p,
    {
        proof {
            lemma_pixel_index(p as int, 0, channels as int, pixels as int);
            lemma_mul_is_distributive_add_other_way(channels as int, p as int, 1);
        }
        let dst: usize = p * channels;
        let src: usize = (pixels - 1 - p) * channels;
        let mut c: usize = 0;
        while c < channels
            invariant
                n == orig.len(),
                data@ == orig,
                channels > 1,
                pixels == whole_pixels(n as nat, channels as nat),
                pixels * channels <= n,
                first == orig[0],
                0 <= p < pixels,
                dst == p * channels,
                src == (pixels - 1 - p) * channels,
                (p + 1) * channels == dst + channels,
                0 <= c <= channels,
                tmp@.len() == n,
                forall|m: int| 0 <= m < dst + c ==> #[trigger] tmp@[m] == rotated_sample(orig, channels as nat, m),
                forall|m: int| dst + c <= m < n ==> #[trigger] tmp@[m] == first,
            decreases channels - c,
        {
            proof {
                lemma_pixel_index(p as int, c as int, channels as int, pixels as int);
            }
            let v: T = data[src + c];
            tmp.set(dst + c, v);
            c = c + 1;
        }
        p = p + 1;
    }

    let mut i: usize = 0;
    while i < n
        invariant
            0 <= i <= n,
            n == orig.len(),
            tmp@.len() == n,
            data@.len() == n,
            pixels == whole_pixels(n as nat, channels as nat),
            forall|m: int| 0 <= m < pixels * channels ==> #[trigger] tmp@[m] == rotated_sample(orig, channels as nat, m),
            forall|m: int| pixels * channels <= m < n ==> #[trigger] tmp@[m] == orig[0],
            forall|m: int| 0 <= m < i ==> #[trigger] data@[m] == tmp@[m],
        decreases n - i,
    {
        data[i] = tmp[i];
        i = i + 1;
    }
    assert(data@ =~= rotated(orig, channels as nat));
}

} // verus!
