use vstd::prelude::*;

verus! {

/// The 1-based bases in the tier index of the four quadrants.
pub const QUADRANT_BASES: [usize; 4] = [274, 183, 92, 1];

/// The 1-based bases in the tier index of the four quadrants.
pub fn quadids() -> (r: [usize; 4])
    ensures
        r@ == seq![274usize, 183, 92, 1],
        r@ == QUADRANT_BASES@,
{
    [274, 183, 92, 1]
}


/// Segments per tier of the 1995 revision, quadrant by quadrant, each
/// quadrant from the equator to the pole one whole degree at a time.
pub const TIER_SEGMENT_COUNTS: [usize; 364] = [
    24, 26, 26, 27, 32, 29, 29, 27, 28, 29, 35, 37, 35,
    33, 28, 28, 28, 28, 28, 27, 26, 25, 28, 28, 30, 32,
    31, 34, 29, 27, 26, 28, 30, 31, 30, 33, 35, 30, 35,
    30, 33, 32, 32, 28, 26, 24, 25, 22, 21, 25, 29, 30,
    29, 24, 21, 16, 15, 14, 13, 14, 11, 11, 10, 10, 10,
    10, 10, 11, 13, 12, 13, 11, 9, 11, 12, 10, 9, 12,
    8, 8, 8, 8, 5, 5, 5, 5, 5, 4, 1, 1, 1,
    19, 23, 26, 23, 24, 23, 24, 25, 26, 28, 24, 19, 22,
    19, 19, 23, 23, 28, 29, 29, 22, 23, 21, 19, 18, 18,
    19, 21, 20, 21, 22, 23, 21, 23, 24, 21, 25, 26, 26,
    25, 22, 20, 21, 22, 23, 23, 26, 21, 19, 19, 18, 21,
    20, 20, 21, 22, 23, 22, 20, 19, 17, 12, 17, 16, 14,
    14, 12, 12, 11, 10, 10, 11, 8, 8, 8, 7, 7, 5,
    5, 5, 7, 4, 4, 4, 3, 3, 3, 3, 1, 1, 1,
    26, 28, 30, 30, 28, 29, 28, 30, 28, 31, 29, 31, 27,
    22, 22, 23, 23, 24, 23, 22, 22, 22, 20, 20, 19, 24,
    23, 18, 19, 20, 18, 19, 19, 21, 23, 20, 19, 17, 17,
    16, 15, 17, 14, 14, 15, 16, 16, 15, 15, 14, 15, 15,
    13, 13, 11, 10, 10, 10, 10, 10, 8, 6, 6, 6, 6,
    11, 8, 6, 6, 2, 4, 3, 3, 3, 3, 3, 3, 4,
    3, 1, 1, 1, 1, 1, 1, 1, 1, 1, 1, 1, 1,
    22, 23, 21, 20, 19, 20, 20, 22, 22, 22, 22, 22, 21,
    21, 21, 18, 18, 17, 18, 20, 19, 19, 20, 20, 20, 22,
    19, 18, 17, 19, 20, 19, 18, 18, 19, 18, 17, 17, 17,
    17, 16, 14, 14, 12, 12, 11, 12, 12, 12, 15, 15, 15,
    15, 15, 15, 14, 13, 12, 11, 11, 10, 9, 5, 6, 5,
    5, 5, 5, 5, 5, 5, 5, 7, 8, 5, 4, 4, 2,
    1, 1, 1, 1, 1, 1, 1, 1, 1, 1, 1, 1, 1,
];

/// The number of segments in the first `n` tiers.
pub open spec fn segments_before(counts: Seq<usize>, n: int) -> int
    decreases n,
{
    if n <= 0 {
        0
    } else {
        segments_before(counts, n - 1) + counts[n - 1]
    }
}

/// Tier `t` of an index built from per-tier segment counts: its segments
/// begin right after those of all tiers before it.
pub open spec fn indexed_tier(counts: Seq<usize>, t: int) -> (usize, usize) {
    ((segments_before(counts, t) + 1) as usize, counts[t])
}

/// Counting the segments of more tiers never gives fewer.
pub proof fn lemma_segments_before_grows(counts: Seq<usize>, m: int, n: int)
    requires
        0 <= m <= n <= counts.len(),
    ensures
        segments_before(counts, m) <= segments_before(counts, n),
    decreases n - m,
{
    if m < n {
        lemma_segments_before_grows(counts, m, n - 1);
    }
}

/// The tier index of a segment table laid out tier by tier with `counts[t]`
/// segments in tier `t`: each entry pairs the 1-based onset of a tier with
/// its number of segments.
pub fn lat_lon_index(counts: &[usize]) -> (r: Vec<(usize, usize)>)
    requires
        segments_before(counts@, counts@.len() as int) < usize::MAX,
    ensures
        r@.len() == counts@.len(),
        forall|t: int| 0 <= t < counts@.len() ==> #[trigger] r@[t] == indexed_tier(counts@, t),
{
    let mut out: Vec<(usize, usize)> = Vec::new();
    let mut carry: usize = 1;
    let mut t: usize = 0;
    while t < counts.len()
        invariant
            t <= counts@.len(),
            out@.len() == t,
            carry == segments_before(counts@, t as int) + 1,
            segments_before(counts@, counts@.len() as int) < usize::MAX,
            forall|u: int| 0 <= u < t ==> #[trigger] out@[u] == indexed_tier(counts@, u),
        decreases counts@.len() - t,
    {
        proof {
            lemma_segments_before_grows(counts@, t as int + 1, counts@.len() as int);
        }
        let v = counts[t];
        out.push((carry, v));
        carry = carry + v;
        t = t + 1;
    }
    out
}

/// Building an index from segment counts yields tiers that partition the
/// segment table: the first begins at the first segment, each next one
/// right where the one before it ends, and the last ends at the table's
/// final segment.
pub proof fn lemma_index_partitions(counts: Seq<usize>)
    requires
        counts.len() > 0,
        segments_before(counts, counts.len() as int) < usize::MAX,
    ensures
        indexed_tier(counts, 0).0 == 1,
        forall|t: int|
            0 <= t < counts.len() - 1 ==> #[trigger] indexed_tier(counts, t + 1).0 == indexed_tier(
                counts,
                t,
            ).0 + indexed_tier(counts, t).1,
        indexed_tier(counts, counts.len() - 1).0 + indexed_tier(counts, counts.len() - 1).1 - 1
            == segments_before(counts, counts.len() as int),
{
    assert forall|t: int| 0 <= t < counts.len() - 1 implies #[trigger] indexed_tier(
        counts,
        t + 1,
    ).0 == indexed_tier(counts, t).0 + indexed_tier(counts, t).1 by {
        lemma_segments_before_grows(counts, t + 1, counts.len() as int);
        lemma_segments_before_grows(counts, t, t + 1);
        lemma_segments_before_grows(counts, 0, t);
        assert(segments_before(counts, t + 1) == segments_before(counts, t) + counts[t]);
    }
    let last = counts.len() - 1;
    lemma_segments_before_grows(counts, last, counts.len() as int);
    lemma_segments_before_grows(counts, 0, last);
    assert(segments_before(counts, last + 1) == segments_before(counts, last) + counts[last]);
}

} // verus!
