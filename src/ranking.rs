//! Ranking by similarity score.
//!
//! Similarity scores are single-precision floats computed outside the
//! library; they arrive here as their IEEE-754 bit patterns, so that the
//! ordering, the threshold test and the NaN check are exact integer work.

use vstd::prelude::*;

verus! {

/// Sign bit of a single-precision bit pattern.
pub const SIGN_BIT: u32 = 0x8000_0000;

/// Largest magnitude (bits without the sign) that is not a NaN: infinity.
pub const INFINITY_MAGNITUDE: u32 = 0x7f80_0000;

/// Whether a bit pattern is a NaN: all exponent bits set and a non-zero
/// mantissa, that is a magnitude above that of infinity.
pub open spec fn is_nan_bits(b: u32) -> bool {
    b % SIGN_BIT > INFINITY_MAGNITUDE
}

/// The position of a non-NaN pattern in the order of the floats it encodes:
/// the magnitude with the sign of the float. Both zeros map to 0.
pub open spec fn score_value(b: u32) -> int {
    if b >= SIGN_BIT {
        -((b - SIGN_BIT) as int)
    } else {
        b as int
    }
}

/// Whether the entry at `i` ranks before the entry at `j`: a higher score
/// first, and between equal scores the earlier entry first.
pub open spec fn ranks_before(scores: Seq<u32>, i: int, j: int) -> bool {
    score_value(scores[i]) > score_value(scores[j]) || (score_value(scores[i]) == score_value(
        scores[j],
    ) && i < j)
}

/// `order` lists every index of `scores` once, by descending score, ties in
/// input order.
pub open spec fn is_ranking(scores: Seq<u32>, order: Seq<usize>) -> bool {
    &&& order.len() == scores.len()
    &&& forall|k: int| 0 <= k < order.len() ==> (#[trigger] order[k] as int) < scores.len()
    &&& forall|x: int| 0 <= x < scores.len() ==> #[trigger] order.contains(x as usize)
    &&& order.no_duplicates()
    &&& forall|k: int, l: int|
        0 <= k < l < order.len() ==> ranks_before(scores, #[trigger] order[k] as int, #[trigger] order[l] as int)
}

/// Whether some score is a NaN.
pub open spec fn has_nan(scores: Seq<u32>) -> bool {
    exists|i: int| 0 <= i < scores.len() && is_nan_bits(#[trigger] scores[i])
}

/// A ranking that could not be made.
#[derive(Debug, Clone, Copy, PartialEq, Eq)]
pub enum RankError {
    /// The score at this index is not a number: the input is corrupt.
    NotANumber(usize),
}

/// The order value of a score, as a machine integer.
pub fn score_value_exec(b: u32) -> (v: i64)
    ensures
        v as int == score_value(b),
{
    if b >= SIGN_BIT {
        -((b - SIGN_BIT) as i64)
    } else {
        b as i64
    }
}

/// Whether a score bit pattern is a NaN.
pub fn is_nan_exec(b: u32) -> (r: bool)
    ensures
        r == is_nan_bits(b),
{
    b % SIGN_BIT > INFINITY_MAGNITUDE
}

/// The order in which entries rank by descending score; a stable sort, so
/// equal scores keep their input order. Fails on the first NaN score.
pub fn rank_order(scores: &Vec<u32>) -> (r: Result<Vec<usize>, RankError>)
    ensures
        r is Err <==> has_nan(scores@),
        match r {
            Ok(order) => is_ranking(scores@, order@),
            Err(RankError::NotANumber(i)) => (i as int) < scores.len() && is_nan_bits(scores@[i as int]),
        },
{
    let n = scores.len();
    let mut i: usize = 0;
    while i < n
        invariant
            n == scores.len(),
            i <= n,
            forall|k: int| 0 <= k < i ==> !is_nan_bits(#[trigger] scores@[k]),
        decreases n - i,
    {
        if is_nan_exec(scores[i]) {
            return Err(RankError::NotANumber(i));
        }
        i += 1;
    }
    let mut order: Vec<usize> = Vec::new();
    let mut i: usize = 0;
    while i < n
        invariant
            n == scores.len(),
            i <= n,
            order.len() == i,
            forall|k: int| 0 <= k < order.len() ==> (#[trigger] order@[k] as int) < i,
            forall|x: int| 0 <= x < i ==> #[trigger] order@.contains(x as usize),
            order@.no_duplicates(),
            forall|k: int, l: int|
                0 <= k < l < order.len() ==> ranks_before(scores@, #[trigger] order@[k] as int, #[trigger] order@[l] as int),
        decreases n - i,
    {
        let v = score_value_exec(scores[i]);
        let mut p: usize = 0;
        while p < order.len() && score_value_exec(scores[order[p]]) >= v
            invariant
                n == scores.len(),
                i < n,
                order.len() == i,
                p <= order.len(),
                v == score_value(scores@[i as int]),
                forall|k: int| 0 <= k < order.len() ==> (#[trigger] order@[k] as int) < i,
                forall|k: int| 0 <= k < p ==> score_value(scores@[#[trigger] order@[k] as int]) >= v,
            decreases order.len() - p,
        {
            p += 1;
        }
        let ghost before = order@;
        proof {
            assert forall|l: int| p <= l < before.len() implies score_value(scores@[#[trigger] before[l] as int]) < v by {
                if l > p {
                    assert(ranks_before(scores@, before[p as int] as int, before[l] as int));
                }
            }
        }
        order.insert(p, i);
        proof {
            assert(order@ == before.insert(p as int, i));
            assert forall|k: int| 0 <= k < order.len() implies (#[trigger] order@[k] as int) < i + 1 by {
                if k < p {
                    assert(order@[k] == before[k]);
                } else if k > p {
                    assert(order@[k] == before[k - 1]);
                }
            }
            assert forall|x: int| 0 <= x < i + 1 implies #[trigger] order@.contains(x as usize) by {
                if x == i {
                    assert(order@[p as int] == i);
                } else {
                    assert(before.contains(x as usize));
                    let w = choose|w: int| 0 <= w < before.len() && before[w] == x as usize;
                    if w < p {
                        assert(order@[w] == x as usize);
                    } else {
                        assert(order@[w + 1] == x as usize);
                    }
                }
            }
            assert forall|k: int, l: int| 0 <= k < l < order.len() implies order@[k] != order@[l] by {
                if k < p && l < p {
                } else if k < p && l == p {
                    assert(order@[k] == before[k]);
                } else if k < p {
                    assert(order@[k] == before[k]);
                    assert(order@[l] == before[l - 1]);
                } else if k == p {
                    assert(order@[l] == before[l - 1]);
                } else {
                    assert(order@[k] == before[k - 1]);
                    assert(order@[l] == before[l - 1]);
                }
            }
            assert forall|k: int, l: int|
                0 <= k < l < order.len() implies ranks_before(scores@, #[trigger] order@[k] as int, #[trigger] order@[l] as int) by {
                if k < p && l < p {
                    assert(order@[k] == before[k] && order@[l] == before[l]);
                } else if k < p && l == p {
                    assert(order@[k] == before[k]);
                } else if k < p {
                    assert(order@[k] == before[k]);
                    assert(order@[l] == before[l - 1]);
                    assert(ranks_before(scores@, before[k] as int, before[l - 1] as int));
                } else if k == p {
                    assert(order@[l] == before[l - 1]);
                } else {
                    assert(order@[k] == before[k - 1]);
                    assert(order@[l] == before[l - 1]);
                    assert(ranks_before(scores@, before[k - 1] as int, before[l - 1] as int));
                }
            }
        }
        i += 1;
    }
    Ok(order)
}

/// `perm` lists every index below `n` exactly once.
pub open spec fn is_permutation(perm: Seq<usize>, n: int) -> bool {
    &&& perm.len() == n
    &&& forall|k: int| 0 <= k < n ==> (#[trigger] perm[k] as int) < n
    &&& forall|x: int| 0 <= x < n ==> #[trigger] perm.contains(x as usize)
    &&& perm.no_duplicates()
}

/// No two scores are equal.
pub open spec fn distinct_scores(scores: Seq<u32>) -> bool {
    forall|i: int, j: int|
        0 <= i < scores.len() && 0 <= j < scores.len() && i != j ==> score_value(#[trigger] scores[i])
            != score_value(#[trigger] scores[j])
}

proof fn lemma_rankings_agree_upto(
    s1: Seq<u32>,
    s2: Seq<u32>,
    perm: Seq<usize>,
    o1: Seq<usize>,
    o2: Seq<usize>,
    k: int,
)
    requires
        s1.len() <= usize::MAX,
        is_permutation(perm, s1.len() as int),
        s2.len() == s1.len(),
        forall|y: int| 0 <= y < s2.len() ==> #[trigger] s2[y] == s1[perm[y] as int],
        distinct_scores(s1),
        is_ranking(s1, o1),
        is_ranking(s2, o2),
        0 <= k <= s1.len(),
    ensures
        forall|j: int| 0 <= j < k ==> #[trigger] o1[j] == perm[o2[j] as int],
    decreases k,
{
    if k > 0 {
        lemma_rankings_agree_upto(s1, s2, perm, o1, o2, k - 1);
        let c = k - 1;
        let x = o1[c];
        let z = perm[o2[c] as int];
        if x != z {
            // x stands somewhere in the second ranking, after position c.
            assert((o1[c] as int) < s1.len());
            assert(perm.contains((x as int) as usize));
            let y = choose|y: int| 0 <= y < perm.len() && perm[y] == x;
            assert(o2.contains((y as usize) as int as usize));
            let m = choose|m: int| 0 <= m < o2.len() && o2[m] == y as usize;
            if m < c {
                assert(o1[m] == perm[o2[m] as int]);
                assert(o1[m] == o1[c]);
            }
            if m == c {
                assert(perm[o2[c] as int] == x);
            }
            assert(m != c);
            assert(m > c);
            assert(ranks_before(s2, o2[c] as int, o2[m] as int));
            assert(o2[c] != o2[m]);
            assert(s2[o2[c] as int] == s1[z as int]);
            assert(s2[o2[m] as int] == s1[x as int]);
            assert(score_value(s1[z as int]) != score_value(s1[x as int]));
            assert(score_value(s1[z as int]) > score_value(s1[x as int]));
            // z stands somewhere in the first ranking, after position c.
            assert((o2[c] as int) < s1.len());
            assert((z as int) < s1.len());
            assert(o1.contains((z as int) as usize));
            let mm = choose|mm: int| 0 <= mm < o1.len() && o1[mm] == z;
            if mm < c {
                assert(o1[mm] == perm[o2[mm] as int]);
                assert(o2[mm] != o2[c]);
            }
            assert(mm != c);
            assert(ranks_before(s1, o1[c] as int, o1[mm] as int));
            assert(score_value(s1[x as int]) != score_value(s1[z as int]));
            assert(false);
        }
    }
}

/// When no two scores are equal, the ranking does not depend on the order
/// in which the entries come: ranking the same entries reordered by `perm`
/// (entry `y` of the second input is entry `perm[y]` of the first) lists the
/// same entries, with the same scores, in the same order.
pub proof fn ranking_ignores_input_order(
    s1: Seq<u32>,
    s2: Seq<u32>,
    perm: Seq<usize>,
    o1: Seq<usize>,
    o2: Seq<usize>,
)
    requires
        s1.len() <= usize::MAX,
        is_permutation(perm, s1.len() as int),
        s2.len() == s1.len(),
        forall|y: int| 0 <= y < s2.len() ==> #[trigger] s2[y] == s1[perm[y] as int],
        distinct_scores(s1),
        is_ranking(s1, o1),
        is_ranking(s2, o2),
    ensures
        forall|k: int| 0 <= k < s1.len() ==> #[trigger] o1[k] == perm[o2[k] as int],
        forall|k: int| 0 <= k < s1.len() ==> #[trigger] s1[o1[k] as int] == s2[o2[k] as int],
{
    lemma_rankings_agree_upto(s1, s2, perm, o1, o2, s1.len() as int);
    assert forall|k: int| 0 <= k < s1.len() implies #[trigger] s1[o1[k] as int] == s2[o2[k] as int] by {
        assert(o1[k] == perm[o2[k] as int]);
    }
}

} // verus!
