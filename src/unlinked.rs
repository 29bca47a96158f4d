//! Detection of note pairs that are similar but do not link to each other.
//!
//! The detector runs in two verified halves around the similarity
//! computation: `unlinked_candidates` lists the pairs worth comparing, the
//! caller computes one similarity score per candidate (in parallel if it
//! likes: the candidates are independent), and `select_unlinked` keeps the
//! pairs that reach the threshold, most similar first.

use vstd::prelude::*;
use crate::graph::{excluded_by, is_excluded, LinkGraph};
use crate::ranking::{is_nan_bits, is_ranking, rank_order, score_value, RankError};
use crate::text::views;

verus! {

/// Two similar notes that do not link to each other, with the bit pattern of
/// their similarity score.
pub struct UnlinkedPair {
    pub path_a: String,
    pub path_b: String,
    pub similarity: u32,
}

/// Whether entries `i < j` of `paths` form a pair to compare: neither path is
/// excluded and the two are not linked.
pub open spec fn is_candidate(
    paths: Seq<Seq<char>>,
    links: Set<(Seq<char>, Seq<char>)>,
    ex: Seq<Seq<char>>,
    i: int,
    j: int,
) -> bool {
    &&& 0 <= i < j < paths.len()
    &&& !excluded_by(paths[i], ex)
    &&& !excluded_by(paths[j], ex)
    &&& !links.contains((paths[i], paths[j]))
}

/// Pair `a` comes before pair `b` in row-major order.
pub open spec fn pair_before(a: (usize, usize), b: (usize, usize)) -> bool {
    a.0 < b.0 || (a.0 == b.0 && a.1 < b.1)
}

/// Every pair of entries to compare, in row-major order: for each entry, the
/// later entries it may be compared with.
pub fn unlinked_candidates(paths: &Vec<String>, graph: &LinkGraph, exclude_prefixes: &[String]) -> (r: Vec<(usize, usize)>)
    requires
        graph.wf(),
    ensures
        forall|i: usize, j: usize|
            is_candidate(views(paths@), graph@, views(exclude_prefixes@), i as int, j as int) <==> #[trigger] r@.contains((i, j)),
        forall|k: int, l: int| 0 <= k < l < r@.len() ==> pair_before(#[trigger] r@[k], #[trigger] r@[l]),
{
    let ghost ps = views(paths@);
    let ghost ex = views(exclude_prefixes@);
    let n = paths.len();
    let mut r: Vec<(usize, usize)> = Vec::new();
    let mut i: usize = 0;
    while i < n
        invariant
            n == paths.len(),
            ps == views(paths@),
            ex == views(exclude_prefixes@),
            graph.wf(),
            i <= n,
            forall|a: usize, b: usize|
                is_candidate(ps, graph@, ex, a as int, b as int) && a < i <==> #[trigger] r@.contains((a, b)),
            forall|k: int| 0 <= k < r@.len() ==> (#[trigger] r@[k]).0 < i,
            forall|k: int, l: int| 0 <= k < l < r@.len() ==> pair_before(#[trigger] r@[k], #[trigger] r@[l]),
        decreases n - i,
    {
        if !is_excluded(&paths[i], exclude_prefixes) {
            let mut j: usize = i + 1;
            while j < n
                invariant
                    n == paths.len(),
                    ps == views(paths@),
                    ex == views(exclude_prefixes@),
                    graph.wf(),
                    i < n,
                    i + 1 <= j <= n,
                    !excluded_by(ps[i as int], ex),
                    forall|a: usize, b: usize|
                        is_candidate(ps, graph@, ex, a as int, b as int) && (a < i || (a == i && b < j)) <==> #[trigger] r@.contains((a, b)),
                    forall|k: int| 0 <= k < r@.len() ==> (#[trigger] r@[k]).0 < i || (r@[k].0 == i && r@[k].1 < j),
                    forall|k: int, l: int| 0 <= k < l < r@.len() ==> pair_before(#[trigger] r@[k], #[trigger] r@[l]),
                decreases n - j,
            {
                assert(ps[i as int] == paths@[i as int]@ && ps[j as int] == paths@[j as int]@);
                if !is_excluded(&paths[j], exclude_prefixes) && !graph.is_linked(&paths[i], &paths[j]) {
                    let ghost before = r@;
                    r.push((i, j));
                    assert forall|a: usize, b: usize|
                        is_candidate(ps, graph@, ex, a as int, b as int) && (a < i || (a == i && b < j + 1)) <==> #[trigger] r@.contains((a, b)) by {
                        vstd::seq_lib::lemma_seq_contains_after_push(before, (i, j), (a, b));
                    }
                } else {
                    assert forall|a: usize, b: usize|
                        is_candidate(ps, graph@, ex, a as int, b as int) && (a < i || (a == i && b < j + 1)) <==> #[trigger] r@.contains((a, b)) by {
                        if a == i && b == j {
                            assert(!is_candidate(ps, graph@, ex, a as int, b as int));
                        }
                    }
                }
                j += 1;
            }
        } else {
            assert forall|a: usize, b: usize|
                is_candidate(ps, graph@, ex, a as int, b as int) && a < i + 1 <==> #[trigger] r@.contains((a, b)) by {
                if a == i {
                    assert(!is_candidate(ps, graph@, ex, a as int, b as int));
                }
            }
        }
        i += 1;
    }
    r
}

/// Whether a score reaches the threshold, as the float comparison
/// `score >= threshold` decides: never when either is a NaN.
pub open spec fn meets_threshold(score: u32, threshold: u32) -> bool {
    !is_nan_bits(score) && !is_nan_bits(threshold) && score_value(score) >= score_value(threshold)
}

/// The positions of the scores that reach the threshold, in order.
pub open spec fn kept_positions(scores: Seq<u32>, threshold: u32) -> Seq<int>
    decreases scores.len(),
{
    if scores.len() == 0 {
        Seq::empty()
    } else {
        let rest = kept_positions(scores.drop_last(), threshold);
        if meets_threshold(scores.last(), threshold) {
            rest.push(scores.len() - 1)
        } else {
            rest
        }
    }
}

/// The scores that reach the threshold, in order.
pub open spec fn kept_scores(scores: Seq<u32>, threshold: u32) -> Seq<u32> {
    kept_positions(scores, threshold).map_values(|c: int| scores[c])
}

/// Whether `u` is the pair of candidate `c` with its score.
pub open spec fn is_pair_of(
    u: UnlinkedPair,
    paths: Seq<String>,
    candidates: Seq<(usize, usize)>,
    scores: Seq<u32>,
    c: int,
) -> bool {
    &&& u.path_a@ == paths[candidates[c].0 as int]@
    &&& u.path_b@ == paths[candidates[c].1 as int]@
    &&& u.similarity == scores[c]
}

proof fn lemma_kept_positions_bounds(scores: Seq<u32>, threshold: u32)
    ensures
        forall|k: int| 0 <= k < kept_positions(scores, threshold).len() ==> 0 <= #[trigger] kept_positions(scores, threshold)[k] < scores.len()
            && meets_threshold(scores[kept_positions(scores, threshold)[k]], threshold),
    decreases scores.len(),
{
    if scores.len() > 0 {
        lemma_kept_positions_bounds(scores.drop_last(), threshold);
        let rest = kept_positions(scores.drop_last(), threshold);
        assert forall|k: int| 0 <= k < rest.len() implies scores[rest[k]] == scores.drop_last()[rest[k]] by {}
    }
}

/// Keeps the candidates whose score (`scores[c]` for candidate `c`)
/// reaches the threshold and lists them by descending score; equal scores
/// keep the candidates' order.
pub fn select_unlinked(
    paths: &Vec<String>,
    candidates: &Vec<(usize, usize)>,
    scores: &Vec<u32>,
    threshold: u32,
) -> (r: Vec<UnlinkedPair>)
    requires
        scores.len() == candidates.len(),
        forall|c: int| 0 <= c < candidates.len() ==> (#[trigger] candidates@[c]).0 < paths.len() && candidates@[c].1 < paths.len(),
    ensures
        exists|o: Seq<usize>|
            {
                &&& is_ranking(kept_scores(scores@, threshold), o)
                &&& r@.len() == o.len()
                &&& forall|k: int| 0 <= k < r@.len() ==> is_pair_of(#[trigger] r@[k], paths@, candidates@, scores@, kept_positions(scores@, threshold)[o[k] as int])
            },
{
    let n = scores.len();
    let mut kept: Vec<usize> = Vec::new();
    let mut kept_sc: Vec<u32> = Vec::new();
    let mut c: usize = 0;
    while c < n
        invariant
            n == scores.len(),
            c <= n,
            kept@.len() == kept_positions(scores@.take(c as int), threshold).len(),
            kept_sc@.len() == kept@.len(),
            forall|k: int| 0 <= k < kept@.len() ==> #[trigger] kept@[k] as int == kept_positions(scores@.take(c as int), threshold)[k],
            forall|k: int| 0 <= k < kept@.len() ==> #[trigger] kept_sc@[k] == scores@[kept@[k] as int],
            forall|k: int| 0 <= k < kept@.len() ==> (#[trigger] kept@[k] as int) < c,
        decreases n - c,
    {
        assert(scores@.take(c + 1).drop_last() =~= scores@.take(c as int));
        assert(scores@.take(c + 1).last() == scores@[c as int]);
        if crate::ranking::is_nan_exec(scores[c]) == false && crate::ranking::is_nan_exec(threshold) == false
            && crate::ranking::score_value_exec(scores[c]) >= crate::ranking::score_value_exec(threshold) {
            kept.push(c);
            kept_sc.push(scores[c]);
        }
        c += 1;
    }
    assert(scores@.take(n as int) =~= scores@);
    proof {
        lemma_kept_positions_bounds(scores@, threshold);
        assert(kept_sc@ =~= kept_scores(scores@, threshold));
        assert(!crate::ranking::has_nan(kept_sc@)) by {
            assert forall|i: int| 0 <= i < kept_sc@.len() implies !is_nan_bits(#[trigger] kept_sc@[i]) by {
                assert(meets_threshold(scores@[kept_positions(scores@, threshold)[i]], threshold));
            }
        }
    }
    let order = match rank_order(&kept_sc) {
        Ok(o) => o,
        Err(RankError::NotANumber(_)) => {
            return Vec::new();
        },
    };
    let mut r: Vec<UnlinkedPair> = Vec::new();
    let mut k: usize = 0;
    while k < order.len()
        invariant
            is_ranking(kept_sc@, order@),
            kept_sc@ == kept_scores(scores@, threshold),
            kept@.len() == kept_sc@.len(),
            forall|q: int| 0 <= q < kept@.len() ==> #[trigger] kept@[q] as int == kept_positions(scores@, threshold)[q],
            forall|q: int| 0 <= q < kept@.len() ==> (#[trigger] kept@[q] as int) < n,
            n == scores.len(),
            scores.len() == candidates.len(),
            forall|c: int| 0 <= c < candidates.len() ==> (#[trigger] candidates@[c]).0 < paths.len() && candidates@[c].1 < paths.len(),
            k <= order.len(),
            r@.len() == k,
            forall|q: int| 0 <= q < k ==> is_pair_of(#[trigger] r@[q], paths@, candidates@, scores@, kept_positions(scores@, threshold)[order@[q] as int]),
        decreases order.len() - k,
    {
        let c = kept[order[k]];
        let (a, b) = candidates[c];
        let u = UnlinkedPair { path_a: paths[a].clone(), path_b: paths[b].clone(), similarity: scores[c] };
        let ghost prev = r@;
        r.push(u);
        proof {
            assert forall|q: int| 0 <= q < k + 1 implies is_pair_of(#[trigger] r@[q], paths@, candidates@, scores@, kept_positions(scores@, threshold)[order@[q] as int]) by {
                if q < k {
                    assert(r@[q] == prev[q]);
                }
            }
        }
        k += 1;
    }
    r
}

} // verus!
