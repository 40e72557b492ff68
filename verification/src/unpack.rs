//! Unpacking of the sensor's packed 10-bit-per-pixel layout.

use vstd::prelude::*;

verus! {

/// Errors raised while turning packed sensor data into pixels.
#[derive(Debug, Clone, Copy, PartialEq, Eq, Structural)]
pub enum LriError {
    /// A buffer did not hold as many elements as the pixel count calls for.
    PixelCountMismatch { expected: usize, got: usize },
}

/// Mask selecting one 10-bit sample.
pub const TEN_MASK: u64 = 1023;

/// Bytes that `count` samples of 10 bits occupy, rounded up to whole bytes.
pub open spec fn packed_len(count: nat) -> nat {
    ((count * 10 + 7) / 8) as nat
}

/// Big-endian value of the five bytes starting at `start`.
pub open spec fn be40(p: Seq<u8>, start: int) -> int {
    p[start] * 4294967296 + p[start + 1] * 16777216 + p[start + 2] * 65536
        + p[start + 3] * 256 + p[start + 4]
}

/// Little-endian value of the first `n` bytes (`n` at most four).
pub open spec fn le_prefix(p: Seq<u8>, n: int) -> int {
    (if n > 0 { p[0] as int } else { 0 })
        + (if n > 1 { p[1] * 256 } else { 0 })
        + (if n > 2 { p[2] * 65536 } else { 0 })
        + (if n > 3 { p[3] * 16777216 } else { 0 })
}

/// `1024` raised to `j`, for the four sample positions of a 40-bit group.
pub open spec fn pow1024(j: int) -> int {
    if j <= 0 {
        1
    } else if j == 1 {
        1024
    } else if j == 2 {
        1048576
    } else {
        1073741824
    }
}

/// The `i`-th unpacked sample of `count` samples.
///
/// The first `4 * (count / 4)` samples come in groups of four from 40-bit
/// big-endian words; group `k` is the `k`-th five-byte word counted back from
/// the end of the packed region, and its first sample is the most significant.
/// The last `count % 4` samples come from the little-endian word formed by the
/// first `packed_len(count) % 5` bytes, least significant sample first.
pub open spec fn tenbit_sample(packd: Seq<u8>, count: nat, i: int) -> u16 {
    let len = packed_len(count) as int;
    let groups = (count / 4) as int;
    if i < 4 * groups {
        let k = i / 4;
        let j = i % 4;
        ((be40(packd, len - 5 * (k + 1)) / pow1024(3 - j)) % 1024) as u16
    } else {
        ((le_prefix(packd, len % 5) / pow1024(i - 4 * groups)) % 1024) as u16
    }
}

proof fn lemma_fields(x: u64)
    by (bit_vector)
    ensures
        (x >> 30u64) & 1023u64 == (x / 1073741824u64) % 1024u64,
        (x >> 20u64) & 1023u64 == (x / 1048576u64) % 1024u64,
        (x >> 10u64) & 1023u64 == (x / 1024u64) % 1024u64,
        x & 1023u64 == x % 1024u64,
{
}

proof fn lemma_packed_len_split(count: nat)
    ensures
        packed_len(count) == 5 * (count / 4) + (if count % 4 == 0 {
            0nat
        } else if count % 4 == 1 {
            2nat
        } else if count % 4 == 2 {
            3nat
        } else {
            4nat
        }),
{
}

/// The five bytes, most significant first, of the 40-bit word that holds the
/// 10-bit samples `s0` to `s3`, `s0` in the top ten bits.
pub open spec fn pack_group(s0: int, s1: int, s2: int, s3: int) -> Seq<u8> {
    let v = s0 * 1073741824 + s1 * 1048576 + s2 * 1024 + s3;
    seq![
        (v / 4294967296) as u8,
        ((v / 16777216) % 256) as u8,
        ((v / 65536) % 256) as u8,
        ((v / 256) % 256) as u8,
        (v % 256) as u8,
    ]
}

proof fn lemma_group_fields(s0: u64, s1: u64, s2: u64, s3: u64, v: u64)
    by (bit_vector)
    requires
        s0 < 1024,
        s1 < 1024,
        s2 < 1024,
        s3 < 1024,
        v == s0 * 1073741824 + s1 * 1048576 + s2 * 1024 + s3,
    ensures
        v < 1099511627776,
        (v / 4294967296) * 4294967296 + ((v / 16777216) % 256) * 16777216 + ((v / 65536) % 256) * 65536
            + ((v / 256) % 256) * 256 + v % 256 == v,
        (v / 1073741824) % 1024 == s0,
        (v / 1048576) % 1024 == s1,
        (v / 1024) % 1024 == s2,
        v % 1024 == s3,
{
}

/// Unpacking four samples stored as one 40-bit group gives back the four
/// samples, in the order they were packed.
pub proof fn lemma_tenbit_unpacks_a_packed_group(s0: u16, s1: u16, s2: u16, s3: u16)
    requires
        s0 < 1024,
        s1 < 1024,
        s2 < 1024,
        s3 < 1024,
    ensures
        tenbit_sample(pack_group(s0 as int, s1 as int, s2 as int, s3 as int), 4, 0) == s0,
        tenbit_sample(pack_group(s0 as int, s1 as int, s2 as int, s3 as int), 4, 1) == s1,
        tenbit_sample(pack_group(s0 as int, s1 as int, s2 as int, s3 as int), 4, 2) == s2,
        tenbit_sample(pack_group(s0 as int, s1 as int, s2 as int, s3 as int), 4, 3) == s3,
{
    let v: u64 = ((s0 as u64) * 1073741824 + (s1 as u64) * 1048576 + (s2 as u64) * 1024 + (s3 as u64)) as u64;
    lemma_group_fields(s0 as u64, s1 as u64, s2 as u64, s3 as u64, v);
    let p = pack_group(s0 as int, s1 as int, s2 as int, s3 as int);
    assert(v / 4294967296 < 256);
    assert(p[0] == v / 4294967296);
    assert(p[1] == (v / 16777216) % 256);
    assert(p[2] == (v / 65536) % 256);
    assert(p[3] == (v / 256) % 256);
    assert(p[4] == v % 256);
    assert(packed_len(4) == 5);
    assert(be40(p, 0) == v);
}

/// The four bytes, least significant first, of the word that holds three
/// trailing 10-bit samples, `s0` in the lowest ten bits.
pub open spec fn pack_tail(s0: int, s1: int, s2: int) -> Seq<u8> {
    let v = s0 + s1 * 1024 + s2 * 1048576;
    seq![
        (v % 256) as u8,
        ((v / 256) % 256) as u8,
        ((v / 65536) % 256) as u8,
        (v / 16777216) as u8,
    ]
}

proof fn lemma_tail_fields(s0: u64, s1: u64, s2: u64, v: u64)
    by (bit_vector)
    requires
        s0 < 1024,
        s1 < 1024,
        s2 < 1024,
        v == s0 + s1 * 1024 + s2 * 1048576,
    ensures
        v / 16777216 < 256,
        v % 256 + ((v / 256) % 256) * 256 + ((v / 65536) % 256) * 65536 + (v / 16777216) * 16777216 == v,
        v % 1024 == s0,
        (v / 1024) % 1024 == s1,
        (v / 1048576) % 1024 == s2,
{
}

/// Unpacking three samples stored as a trailing little-endian word gives back
/// the three samples, in the order they were packed.
pub proof fn lemma_tenbit_unpacks_a_packed_tail(s0: u16, s1: u16, s2: u16)
    requires
        s0 < 1024,
        s1 < 1024,
        s2 < 1024,
    ensures
        tenbit_sample(pack_tail(s0 as int, s1 as int, s2 as int), 3, 0) == s0,
        tenbit_sample(pack_tail(s0 as int, s1 as int, s2 as int), 3, 1) == s1,
        tenbit_sample(pack_tail(s0 as int, s1 as int, s2 as int), 3, 2) == s2,
{
    let v: u64 = ((s0 as u64) + (s1 as u64) * 1024 + (s2 as u64) * 1048576) as u64;
    lemma_tail_fields(s0 as u64, s1 as u64, s2 as u64, v);
    let p = pack_tail(s0 as int, s1 as int, s2 as int);
    assert(p[0] == v % 256);
    assert(p[1] == (v / 256) % 256);
    assert(p[2] == (v / 65536) % 256);
    assert(p[3] == v / 16777216);
    assert(packed_len(3) == 4);
    assert(le_prefix(p, 4) == v);
}

/// Unpack `count` 10-bit samples from `packd` into the front of `upack`.
///
/// Fails, leaving `upack` as it was, when `upack` has room for fewer than
/// `count` samples or `packd` holds fewer than `packed_len(count)` bytes.
/// Samples past `count` are left untouched.
pub fn tenbit(packd: &[u8], count: usize, upack: &mut [u16]) -> (res: Result<(), LriError>)
    requires
        count * 10 <= usize::MAX,
    ensures
        count > old(upack)@.len() ==> res == Err::<(), LriError>(
            LriError::PixelCountMismatch { expected: count, got: old(upack)@.len() as usize },
        ),
        count <= old(upack)@.len() && packed_len(count as nat) > packd@.len() ==> res == Err::<
            (),
            LriError,
        >(LriError::PixelCountMismatch { expected: packed_len(count as nat) as usize, got: packd@.len() as usize }),
        res is Err ==> final(upack)@ == old(upack)@,
        res is Ok <==> (count <= old(upack)@.len() && packed_len(count as nat) <= packd@.len()),
        res is Ok ==> final(upack)@.len() == old(upack)@.len(),
        res is Ok ==> forall|i: int|
            0 <= i < count ==> #[trigger] final(upack)@[i] == tenbit_sample(packd@, count as nat, i),
        res is Ok ==> forall|i: int|
            count <= i < old(upack)@.len() ==> #[trigger] final(upack)@[i] == old(upack)@[i],
{
    let bits: usize = count * 10;
    let required_len: usize = bits / 8 + if bits % 8 != 0 { 1usize } else { 0usize };
    assert(required_len == packed_len(count as nat));

    if count > upack.len() {
        return Err(LriError::PixelCountMismatch { expected: count, got: upack.len() });
    }
    if required_len > packd.len() {
        return Err(LriError::PixelCountMismatch { expected: required_len, got: packd.len() });
    }

    proof {
        lemma_packed_len_split(count as nat);
    }
    let full_chunks: usize = required_len / 5;
    let remain: usize = required_len % 5;
    assert(full_chunks == count / 4);
    assert(remain == packed_len(count as nat) % 5);

    let ghost orig = upack@;
    let mut idx: usize = 0;
    while idx < full_chunks
        invariant
            0 <= idx <= full_chunks,
            full_chunks == count / 4,
            required_len == packed_len(count as nat),
            required_len == 5 * full_chunks + remain,
            required_len <= packd@.len(),
            count <= orig.len(),
            upack@.len() == orig.len(),
            forall|i: int| 0 <= i < 4 * idx ==> #[trigger] upack@[i] == tenbit_sample(packd@, count as nat, i),
            forall|i: int| 4 * idx <= i < orig.len() ==> #[trigger] upack@[i] == orig[i],
        decreases full_chunks - idx,
    {
        let start: usize = required_len - (idx + 1) * 5;
        let long: u64 = (packd[start] as u64) * 4294967296 + (packd[start + 1] as u64) * 16777216
            + (packd[start + 2] as u64) * 65536 + (packd[start + 3] as u64) * 256
            + (packd[start + 4] as u64);
        assert(long == be40(packd@, start as int));
        proof {
            lemma_fields(long);
        }
        let out: usize = idx * 4;
        upack[out] = ((long >> 30u64) & TEN_MASK) as u16;
        upack[out + 1] = ((long >> 20u64) & TEN_MASK) as u16;
        upack[out + 2] = ((long >> 10u64) & TEN_MASK) as u16;
        upack[out + 3] = (long & TEN_MASK) as u16;
        assert forall|i: int| 0 <= i < 4 * (idx + 1) implies #[trigger] upack@[i] == tenbit_sample(
            packd@,
            count as nat,
            i,
        ) by {
            if i >= 4 * idx {
                assert(i / 4 == idx);
                assert(required_len - 5 * (i / 4 + 1) == start);
            }
        }
        idx = idx + 1;
    }

    if remain > 0 {
        let b0: u64 = packd[0] as u64;
        let b1: u64 = if remain > 1 { packd[1] as u64 } else { 0 };
        let b2: u64 = if remain > 2 { packd[2] as u64 } else { 0 };
        let b3: u64 = if remain > 3 { packd[3] as u64 } else { 0 };
        let long: u64 = b0 + b1 * 256 + b2 * 65536 + b3 * 16777216;
        assert(long == le_prefix(packd@, remain as int));
        proof {
            lemma_fields(long);
        }
        let count_remain: usize = count % 4;
        let start: usize = count - count_remain;
        let mut j: usize = 0;
        while j < count_remain
            invariant
                0 <= j <= count_remain,
                count_remain == count % 4,
                start == 4 * full_chunks,
                full_chunks == count / 4,
                start + count_remain == count,
                count <= orig.len(),
                required_len == packed_len(count as nat),
                remain == required_len % 5,
                long == le_prefix(packd@, remain as int),
                upack@.len() == orig.len(),
                forall|i: int| 0 <= i < start + j ==> #[trigger] upack@[i] == tenbit_sample(packd@, count as nat, i),
                forall|i: int| start + j <= i < orig.len() ==> #[trigger] upack@[i] == orig[i],
                (long >> 20u64) & 1023u64 == (long / 1048576u64) % 1024u64,
                (long >> 10u64) & 1023u64 == (long / 1024u64) % 1024u64,
                long & 1023u64 == long % 1024u64,
            decreases count_remain - j,
        {
            let v: u64 = if j == 0 {
                long & TEN_MASK
            } else if j == 1 {
                (long >> 10u64) & TEN_MASK
            } else {
                (long >> 20u64) & TEN_MASK
            };
            upack[start + j] = v as u16;
            j = j + 1;
        }
    } else {
        assert(count % 4 == 0);
    }
    Ok(())
}

} // verus!
