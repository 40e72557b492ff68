//! Agreement between two 8-bit buffers over the pixels where both carry data.
//!
//! Zero means "no data": warping leaves it outside the source footprint, so
//! every statistic here skips a position where either side is zero.

use vstd::prelude::*;

verus! {

/// Exact running totals over the common non-zero footprint of two buffers.
pub struct OverlapMoments {
    pub pixels: int,
    pub abs_diff: int,
    pub sum_a: int,
    pub sum_b: int,
    pub sum_aa: int,
    pub sum_bb: int,
    pub sum_ab: int,
}

/// Whether position `i` counts: both buffers carry data there.
pub open spec fn both_have_data(a: Seq<u8>, b: Seq<u8>, i: int) -> bool {
    a[i] != 0 && b[i] != 0
}

/// The totals over the first `n` positions: how many count, and the sums of
/// `|a - b|`, `a`, `b`, `a²`, `b²` and `a·b` over those that do.
pub open spec fn overlap_moments(a: Seq<u8>, b: Seq<u8>, n: int) -> OverlapMoments
    decreases n,
{
    if n <= 0 {
        OverlapMoments { pixels: 0, abs_diff: 0, sum_a: 0, sum_b: 0, sum_aa: 0, sum_bb: 0, sum_ab: 0 }
    } else {
        let prev = overlap_moments(a, b, n - 1);
        if both_have_data(a, b, n - 1) {
            let x = a[n - 1] as int;
            let y = b[n - 1] as int;
            OverlapMoments {
                pixels: prev.pixels + 1,
                abs_diff: prev.abs_diff + if x >= y { x - y } else { y - x },
                sum_a: prev.sum_a + x,
                sum_b: prev.sum_b + y,
                sum_aa: prev.sum_aa + x * x,
                sum_bb: prev.sum_bb + y * y,
                sum_ab: prev.sum_ab + x * y,
            }
        } else {
            prev
        }
    }
}

/// Scoring is symmetric: swapping the buffers swaps the per-side sums and
/// leaves the count, the absolute difference and the cross term alone.
pub proof fn lemma_overlap_symmetric(a: Seq<u8>, b: Seq<u8>, n: int)
    ensures
        overlap_moments(b, a, n).pixels == overlap_moments(a, b, n).pixels,
        overlap_moments(b, a, n).abs_diff == overlap_moments(a, b, n).abs_diff,
        overlap_moments(b, a, n).sum_a == overlap_moments(a, b, n).sum_b,
        overlap_moments(b, a, n).sum_b == overlap_moments(a, b, n).sum_a,
        overlap_moments(b, a, n).sum_aa == overlap_moments(a, b, n).sum_bb,
        overlap_moments(b, a, n).sum_bb == overlap_moments(a, b, n).sum_aa,
        overlap_moments(b, a, n).sum_ab == overlap_moments(a, b, n).sum_ab,
    decreases n,
{
    if n > 0 {
        lemma_overlap_symmetric(a, b, n - 1);
        let x = a[n - 1] as int;
        let y = b[n - 1] as int;
        assert(x * y == y * x) by (nonlinear_arith);
    }
}

/// A buffer scored against itself differs nowhere, its two sides agree, and
/// its cross term is its own sum of squares.
pub proof fn lemma_overlap_with_itself(a: Seq<u8>, n: int)
    ensures
        overlap_moments(a, a, n).abs_diff == 0,
        overlap_moments(a, a, n).sum_a == overlap_moments(a, a, n).sum_b,
        overlap_moments(a, a, n).sum_aa == overlap_moments(a, a, n).sum_bb,
        overlap_moments(a, a, n).sum_ab == overlap_moments(a, a, n).sum_aa,
    decreases n,
{
    if n > 0 {
        lemma_overlap_with_itself(a, n - 1);
    }
}

/// What the second buffer holds where the first has no data does not matter.
pub proof fn lemma_overlap_ignores_no_data(a: Seq<u8>, b: Seq<u8>, c: Seq<u8>, n: int)
    requires
        n <= a.len(),
        n <= b.len(),
        n <= c.len(),
        forall|i: int| 0 <= i < n && a[i] != 0 ==> #[trigger] b[i] == c[i],
    ensures
        overlap_moments(a, b, n) == overlap_moments(a, c, n),
    decreases n,
{
    if n > 0 {
        lemma_overlap_ignores_no_data(a, b, c, n - 1);
    }
}

/// Sum of the first `n` samples of `s`.
pub open spec fn sample_total(s: Seq<u8>, n: int) -> int
    decreases n,
{
    if n <= 0 {
        0
    } else {
        sample_total(s, n - 1) + s[n - 1]
    }
}

/// Sum of the distances between the first `n` samples of `a` and of `b`.
pub open spec fn distance_total(a: Seq<u8>, b: Seq<u8>, n: int) -> int
    decreases n,
{
    if n <= 0 {
        0
    } else {
        distance_total(a, b, n - 1) + if a[n - 1] >= b[n - 1] {
            a[n - 1] - b[n - 1]
        } else {
            b[n - 1] - a[n - 1]
        }
    }
}

/// Where neither buffer has a zero among its first `n` samples, every one of
/// those positions counts: the count is `n`, and the sums of each side and of
/// the distances run over all of them.
pub proof fn lemma_overlap_counts_all_data(a: Seq<u8>, b: Seq<u8>, n: int)
    requires
        0 <= n <= a.len(),
        n <= b.len(),
        forall|i: int| 0 <= i < n ==> #[trigger] a[i] != 0 && b[i] != 0,
    ensures
        overlap_moments(a, b, n).pixels == n,
        overlap_moments(a, b, n).sum_a == sample_total(a, n),
        overlap_moments(a, b, n).sum_b == sample_total(b, n),
        overlap_moments(a, b, n).abs_diff == distance_total(a, b, n),
    decreases n,
{
    if n > 0 {
        lemma_overlap_counts_all_data(a, b, n - 1);
        assert(a[n - 1] != 0 && b[n - 1] != 0);
    }
}

/// The count is the number of positions where both buffers carry data: a
/// position where either sample is zero never counts, and adding one more
/// position counts it exactly when both of its samples are non-zero.
pub proof fn lemma_overlap_count_step(a: Seq<u8>, b: Seq<u8>, n: int)
    requires
        0 < n,
    ensures
        overlap_moments(a, b, n).pixels == overlap_moments(a, b, n - 1).pixels + if a[n - 1] != 0 && b[n
            - 1] != 0 {
            1int
        } else {
            0int
        },
{
}

/// The totals from which the overlap scores (mean absolute difference and
/// zero-mean normalized cross-correlation) are computed.
#[derive(Debug, Clone, Copy, PartialEq, Eq, Structural)]
pub struct OverlapSums {
    /// Positions where neither side is zero.
    pub pixels: u32,
    pub abs_diff: u64,
    pub sum_a: u64,
    pub sum_b: u64,
    pub sum_aa: u64,
    pub sum_bb: u64,
    pub sum_ab: u64,
}

/// The sums agree with the totals `m`.
pub open spec fn sums_match(s: OverlapSums, m: OverlapMoments) -> bool {
    &&& s.pixels == m.pixels
    &&& s.abs_diff == m.abs_diff
    &&& s.sum_a == m.sum_a
    &&& s.sum_b == m.sum_b
    &&& s.sum_aa == m.sum_aa
    &&& s.sum_bb == m.sum_bb
    &&& s.sum_ab == m.sum_ab
}

/// Tally two equally long buffers over the positions where both are non-zero.
pub fn overlap_sums(a: &[u8], b: &[u8]) -> (s: OverlapSums)
    requires
        a@.len() == b@.len(),
        a@.len() <= u32::MAX,
    ensures
        sums_match(s, overlap_moments(a@, b@, a@.len() as int)),
{
    let len: usize = a.len();
    let mut s = OverlapSums { pixels: 0, abs_diff: 0, sum_a: 0, sum_b: 0, sum_aa: 0, sum_bb: 0, sum_ab: 0 };
    let mut i: usize = 0;
    while i < len
        invariant
            len == a@.len(),
            a@.len() == b@.len(),
            len <= u32::MAX,
            0 <= i <= len,
            sums_match(s, overlap_moments(a@, b@, i as int)),
            s.pixels <= i,
            s.abs_diff <= 255 * i,
            s.sum_a <= 255 * i,
            s.sum_b <= 255 * i,
            s.sum_aa <= 65025 * i,
            s.sum_bb <= 65025 * i,
            s.sum_ab <= 65025 * i,
        decreases len - i,
    {
        let pa: u8 = a[i];
        let pb: u8 = b[i];
        if pa != 0 && pb != 0 {
            let av: u64 = pa as u64;
            let bv: u64 = pb as u64;
            proof {
                assert(av * av <= 65025 && bv * bv <= 65025 && av * bv <= 65025) by (nonlinear_arith)
                    requires
                        av <= 255,
                        bv <= 255,
                ;
            }
            s.pixels = s.pixels + 1;
            s.abs_diff = s.abs_diff + if av >= bv { av - bv } else { bv - av };
            s.sum_a = s.sum_a + av;
            s.sum_b = s.sum_b + bv;
            s.sum_aa = s.sum_aa + av * av;
            s.sum_bb = s.sum_bb + bv * bv;
            s.sum_ab = s.sum_ab + av * bv;
        }
        i = i + 1;
    }
    s
}

} // verus!
