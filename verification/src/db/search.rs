//! Hybrid search: the lexical and the semantic ranking are fused into one
//! by Reciprocal Rank Fusion.
//!
//! A hit at rank `r` of a channel contributes `1 / (60 + r)`; an entry's
//! score is the sum of what it gets from the channels that list it. Scores
//! are exact fractions. Entries with equal scores stay in the order in which
//! they first appear, lexical hits before vector hits. A ranking lists an
//! entry once.

use crate::db::journals::Journal;
use crate::error::AppError;
use crate::text::{blank, is_blank, join, joined, push_char, split_words, to_chars, views, words};
use vstd::prelude::*;

verus! {

/// RRF constant for rank fusion (standard value).
pub const RRF_K: u64 = 60;

/// The longest ranking that a channel may hand in: with it, `60 + rank` fits
/// in 32 bits and every score in a fraction of two 64-bit numbers.
pub const MAX_HITS: usize = 4_294_967_235;

/// One hit of a retrieval channel. `score` is the channel's raw score (a
/// text-relevance rank or a vector distance) as an integer that orders hits
/// as the raw score does; lower is better.
#[derive(Debug, Clone)]
pub struct ChannelHit {
    pub id: String,
    pub score: u64,
}

/// A fused score: the fraction `num / den`, with `den > 0`.
#[derive(Debug, Clone, Copy, PartialEq, Eq, Structural)]
pub struct RrfScore {
    pub num: u64,
    pub den: u64,
}

/// RRF result: (id, combined score, lexical rank, vector rank).
pub type RrfResult = (String, RrfScore, Option<usize>, Option<usize>);

/// Result from hybrid search with combined score.
#[derive(Debug, Clone)]
pub struct HybridSearchResult {
    pub journal: Journal,
    pub score: RrfScore,
    pub fts_rank: Option<usize>,
    pub vec_rank: Option<usize>,
}

/// A fused result as a mathematical value.
pub struct FusedEntry {
    pub id: Seq<char>,
    pub score: RrfScore,
    pub fts_rank: Option<usize>,
    pub vec_rank: Option<usize>,
}

impl RrfScore {
    /// `self` is a strictly smaller fraction than `other`.
    pub open spec fn below(self, other: RrfScore) -> bool {
        self.num * other.den < other.num * self.den
    }

    /// Whether `self` is a strictly smaller fraction than `other`.
    pub fn is_below(&self, other: &RrfScore) -> (yes: bool)
        ensures
            yes == self.below(*other),
    {
        let left: u128 = mul_wide(self.num, other.den);
        let right: u128 = mul_wide(other.num, self.den);
        left < right
    }
}

/// The product of two 64-bit numbers, which always fits in 128 bits.
fn mul_wide(a: u64, b: u64) -> (product: u128)
    ensures
        product == a * b,
{
    assert(a * b <= 0xFFFF_FFFF_FFFF_FFFF * 0xFFFF_FFFF_FFFF_FFFF) by (nonlinear_arith)
        requires
            0 <= a <= 0xFFFF_FFFF_FFFF_FFFF,
            0 <= b <= 0xFFFF_FFFF_FFFF_FFFF,
    ;
    (a as u128) * (b as u128)
}

/// The ids of a channel's hits, in rank order.
pub open spec fn hit_ids(hits: Seq<ChannelHit>) -> Seq<Seq<char>> {
    Seq::new(hits.len(), |i: int| hits[i].id@)
}

/// The 1-based rank at which `id` appears in `ids`, if it does; the first
/// of them, should it appear more than once.
pub open spec fn rank_of(ids: Seq<Seq<char>>, id: Seq<char>) -> Option<usize>
    decreases ids.len(),
{
    if ids.len() == 0 {
        None
    } else if ids[0] == id {
        Some(1)
    } else {
        match rank_of(ids.drop_first(), id) {
            Some(rank) => Some((rank + 1) as usize),
            None => None,
        }
    }
}

/// The score of an entry with the given ranks: `1 / (60 + rank)` for each
/// channel that lists it, added up as fractions.
pub open spec fn rrf_score(fts_rank: Option<usize>, vec_rank: Option<usize>) -> RrfScore {
    match (fts_rank, vec_rank) {
        (Some(f), Some(v)) => RrfScore {
            num: ((RRF_K + f) + (RRF_K + v)) as u64,
            den: ((RRF_K + f) * (RRF_K + v)) as u64,
        },
        (Some(f), None) => RrfScore { num: 1, den: (RRF_K + f) as u64 },
        (None, Some(v)) => RrfScore { num: 1, den: (RRF_K + v) as u64 },
        (None, None) => RrfScore { num: 0, den: 1 },
    }
}

/// The fused entry of `id`, given the ids of both channels.
pub open spec fn entry_for(id: Seq<char>, fts: Seq<Seq<char>>, vec: Seq<Seq<char>>) -> FusedEntry {
    let fts_rank = rank_of(fts, id);
    let vec_rank = rank_of(vec, id);
    FusedEntry { id, score: rrf_score(fts_rank, vec_rank), fts_rank, vec_rank }
}

/// The ids of `ids`, each once, in the order of their first appearance.
pub open spec fn distinct(ids: Seq<Seq<char>>) -> Seq<Seq<char>>
    decreases ids.len(),
{
    if ids.len() == 0 {
        Seq::empty()
    } else {
        let before = distinct(ids.drop_last());
        if before.contains(ids.last()) {
            before
        } else {
            before.push(ids.last())
        }
    }
}

/// One fused entry for each entry that either channel lists, in the order
/// of first appearance: lexical hits first, then the vector hits.
pub open spec fn candidates(fts: Seq<Seq<char>>, vec: Seq<Seq<char>>) -> Seq<FusedEntry> {
    let ids = distinct(fts + vec);
    Seq::new(ids.len(), |i: int| entry_for(ids[i], fts, vec))
}

/// Where an entry with `score` goes into `sorted`: before the first entry
/// with a lower score, behind every entry that scores as high or higher.
pub open spec fn insert_position(sorted: Seq<FusedEntry>, score: RrfScore) -> int
    decreases sorted.len(),
{
    if sorted.len() == 0 {
        0
    } else if sorted[0].score.below(score) {
        0
    } else {
        1 + insert_position(sorted.drop_first(), score)
    }
}

/// `entries` ordered by descending score; entries with equal scores keep
/// their order.
pub open spec fn ranked(entries: Seq<FusedEntry>) -> Seq<FusedEntry>
    decreases entries.len(),
{
    if entries.len() == 0 {
        Seq::empty()
    } else {
        let sorted = ranked(entries.drop_last());
        sorted.insert(insert_position(sorted, entries.last().score), entries.last())
    }
}

/// The fused ranking of two channels: all candidates, best score first, cut
/// to `limit` entries after sorting.
pub open spec fn fused(fts: Seq<Seq<char>>, vec: Seq<Seq<char>>, limit: nat) -> Seq<FusedEntry> {
    let all = ranked(candidates(fts, vec));
    if limit < all.len() {
        all.take(limit as int)
    } else {
        all
    }
}

/// The mathematical value of a result.
pub open spec fn entry_of(result: RrfResult) -> FusedEntry {
    FusedEntry { id: result.0@, score: result.1, fts_rank: result.2, vec_rank: result.3 }
}

/// The mathematical values of a list of results.
pub open spec fn entries_of(results: Seq<RrfResult>) -> Seq<FusedEntry> {
    Seq::new(results.len(), |i: int| entry_of(results[i]))
}

/// The ids of a list of entries.
pub open spec fn entry_ids(entries: Seq<FusedEntry>) -> Seq<Seq<char>> {
    Seq::new(entries.len(), |i: int| entries[i].id)
}

proof fn lemma_rank_of_found(ids: Seq<Seq<char>>, id: Seq<char>, at: int)
    requires
        0 <= at < ids.len() <= usize::MAX,
        ids[at] == id,
        forall|k: int| 0 <= k < at ==> #[trigger] ids[k] != id,
    ensures
        rank_of(ids, id) == Some((at + 1) as usize),
    decreases at,
{
    if at > 0 {
        let rest = ids.drop_first();
        assert forall|k: int| 0 <= k < at - 1 implies #[trigger] rest[k] != id by {
            assert(rest[k] == ids[k + 1]);
        }
        lemma_rank_of_found(rest, id, at - 1);
    }
}

proof fn lemma_rank_of_missing(ids: Seq<Seq<char>>, id: Seq<char>)
    requires
        forall|k: int| 0 <= k < ids.len() ==> #[trigger] ids[k] != id,
    ensures
        rank_of(ids, id) == None::<usize>,
    decreases ids.len(),
{
    if ids.len() > 0 {
        let rest = ids.drop_first();
        assert forall|k: int| 0 <= k < rest.len() implies #[trigger] rest[k] != id by {
            assert(rest[k] == ids[k + 1]);
        }
        lemma_rank_of_missing(rest, id);
    }
}

/// A rank that `rank_of` reports lies within the list.
pub proof fn lemma_rank_of_bounds(ids: Seq<Seq<char>>, id: Seq<char>)
    requires
        ids.len() <= usize::MAX,
    ensures
        rank_of(ids, id) matches Some(rank) ==> 1 <= rank <= ids.len() && ids[rank - 1] == id,
        rank_of(ids, id) is None ==> !ids.contains(id),
    decreases ids.len(),
{
    if ids.len() > 0 && ids[0] != id {
        let rest = ids.drop_first();
        lemma_rank_of_bounds(rest, id);
        if rank_of(rest, id) is None {
            assert forall|k: int| 0 <= k < ids.len() implies ids[k] != id by {
                if k > 0 {
                    assert(rest[k - 1] == ids[k]);
                    assert(rest.contains(ids[k]));
                }
            }
        }
    }
}

proof fn lemma_insert_position(sorted: Seq<FusedEntry>, score: RrfScore, at: int)
    requires
        0 <= at <= sorted.len(),
        forall|k: int| 0 <= k < at ==> !(#[trigger] sorted[k]).score.below(score),
        at == sorted.len() || sorted[at].score.below(score),
    ensures
        insert_position(sorted, score) == at,
    decreases at,
{
    if at > 0 {
        let rest = sorted.drop_first();
        assert forall|k: int| 0 <= k < at - 1 implies !(#[trigger] rest[k]).score.below(score) by {
            assert(rest[k] == sorted[k + 1]);
        }
        lemma_insert_position(rest, score, at - 1);
    }
}

/// No entry of `entries` scores lower than an entry behind it.
pub open spec fn descending(entries: Seq<FusedEntry>) -> bool {
    forall|i: int, j: int|
        0 <= i < j < entries.len() ==> !(#[trigger] entries[i]).score.below(
            (#[trigger] entries[j]).score,
        )
}

/// Every score of `entries` has a positive denominator.
pub open spec fn well_scored(entries: Seq<FusedEntry>) -> bool {
    forall|k: int| 0 <= k < entries.len() ==> (#[trigger] entries[k]).score.den > 0
}

proof fn lemma_below_chain(a: RrfScore, b: RrfScore, c: RrfScore)
    requires
        a.den > 0,
        b.den > 0,
        c.den > 0,
        !b.below(a),
        b.below(c),
    ensures
        a.below(c),
{
    let (an, ad) = (a.num as int, a.den as int);
    let (bn, bd) = (b.num as int, b.den as int);
    let (cn, cd) = (c.num as int, c.den as int);
    assert(an * cd < cn * ad) by (nonlinear_arith)
        requires
            ad > 0,
            bd > 0,
            cd > 0,
            an >= 0,
            bn >= 0,
            cn >= 0,
            an * bd <= bn * ad,
            bn * cd < cn * bd,
    {
        assert((an * bd) * cd <= (bn * ad) * cd);
        assert((bn * cd) * ad < (cn * bd) * ad);
        assert((an * cd) * bd == (an * bd) * cd);
        assert((bn * ad) * cd == (bn * cd) * ad);
        assert((cn * bd) * ad == (cn * ad) * bd);
        assert((an * cd) * bd < (cn * ad) * bd);
    }
}

proof fn lemma_insert_position_bounds(sorted: Seq<FusedEntry>, score: RrfScore)
    ensures
        0 <= insert_position(sorted, score) <= sorted.len(),
        forall|k: int|
            0 <= k < insert_position(sorted, score) ==> !(#[trigger] sorted[k]).score.below(score),
        insert_position(sorted, score) < sorted.len() ==> sorted[insert_position(
            sorted,
            score,
        )].score.below(score),
    decreases sorted.len(),
{
    if sorted.len() > 0 && !sorted[0].score.below(score) {
        let rest = sorted.drop_first();
        lemma_insert_position_bounds(rest, score);
        assert forall|k: int| 0 <= k < insert_position(sorted, score) implies !(
        #[trigger] sorted[k]).score.below(score) by {
            if k > 0 {
                assert(sorted[k] == rest[k - 1]);
            }
        }
    }
}

/// Ranking keeps every entry, each as often as it was handed in, and puts
/// the entries in descending order of score.
pub proof fn lemma_ranked_is_sorted(entries: Seq<FusedEntry>)
    requires
        well_scored(entries),
    ensures
        ranked(entries).len() == entries.len(),
        ranked(entries).to_multiset() == entries.to_multiset(),
        well_scored(ranked(entries)),
        descending(ranked(entries)),
    decreases entries.len(),
{
    broadcast use vstd::seq_lib::to_multiset_insert, vstd::seq_lib::to_multiset_build;

    if entries.len() == 0 {
        assert(entries =~= Seq::empty());
    } else {
        let front = entries.drop_last();
        let last = entries.last();
        assert(well_scored(front)) by {
            assert forall|k: int| 0 <= k < front.len() implies (#[trigger] front[k]).score.den
                > 0 by {
                assert(front[k] == entries[k]);
            }
        }
        lemma_ranked_is_sorted(front);
        let sorted = ranked(front);
        let at = insert_position(sorted, last.score);
        lemma_insert_position_bounds(sorted, last.score);
        let out = sorted.insert(at, last);
        assert(ranked(entries) == out);
        assert(entries =~= front.push(last));
        assert(out.to_multiset() =~= entries.to_multiset());
        assert(well_scored(out)) by {
            assert forall|k: int| 0 <= k < out.len() implies (#[trigger] out[k]).score.den > 0 by {
                if k < at {
                    assert(out[k] == sorted[k]);
                } else if k > at {
                    assert(out[k] == sorted[k - 1]);
                }
            }
        }
        assert(descending(out)) by {
            assert forall|i: int, j: int| 0 <= i < j < out.len() implies !(#[trigger] out[i]).score.below(
                (#[trigger] out[j]).score,
            ) by {
                if j < at {
                    assert(out[i] == sorted[i] && out[j] == sorted[j]);
                } else if j == at {
                    assert(out[i] == sorted[i]);
                } else if i < at {
                    assert(out[i] == sorted[i] && out[j] == sorted[j - 1]);
                } else if i == at {
                    assert(out[j] == sorted[j - 1]);
                    if at < j - 1 {
                        assert(!sorted[at].score.below(sorted[j - 1].score));
                    }
                    if last.score.below(sorted[j - 1].score) {
                        lemma_below_chain(sorted[j - 1].score, sorted[at].score, last.score);
                    }
                } else {
                    assert(out[i] == sorted[i - 1] && out[j] == sorted[j - 1]);
                }
            }
        }
    }
}

/// With rankings of at most [`MAX_HITS`] hits, every candidate's score has a
/// positive denominator.
pub proof fn lemma_candidates_well_scored(fts: Seq<Seq<char>>, vec: Seq<Seq<char>>)
    requires
        fts.len() <= MAX_HITS,
        vec.len() <= MAX_HITS,
    ensures
        well_scored(candidates(fts, vec)),
{
    let found = candidates(fts, vec);
    assert forall|k: int| 0 <= k < found.len() implies (#[trigger] found[k]).score.den > 0 by {
        let id = found[k].id;
        lemma_rank_of_bounds(fts, id);
        lemma_rank_of_bounds(vec, id);
        lemma_score_in_range(rank_of(fts, id), rank_of(vec, id));
    }
}

proof fn lemma_score_in_range(fts_rank: Option<usize>, vec_rank: Option<usize>)
    requires
        fts_rank matches Some(rank) ==> rank <= MAX_HITS,
        vec_rank matches Some(rank) ==> rank <= MAX_HITS,
    ensures
        rrf_score(fts_rank, vec_rank).den > 0,
        fts_rank matches Some(f) ==> vec_rank matches Some(v) ==> {
            &&& rrf_score(fts_rank, vec_rank).num == (RRF_K + f) + (RRF_K + v)
            &&& rrf_score(fts_rank, vec_rank).den == (RRF_K + f) * (RRF_K + v)
        },
{
    if fts_rank is Some && vec_rank is Some {
        let a = RRF_K + fts_rank->0;
        let b = RRF_K + vec_rank->0;
        assert(0 < a * b <= 0xFFFF_FFFF * 0xFFFF_FFFF) by (nonlinear_arith)
            requires
                60 <= a <= 0xFFFF_FFFF,
                60 <= b <= 0xFFFF_FFFF,
        ;
    }
}

/// The fused ranking is in descending order of score and holds
/// `min(limit, number of candidates)` entries, each a candidate.
pub proof fn lemma_fused_is_descending(fts: Seq<Seq<char>>, vec: Seq<Seq<char>>, limit: nat)
    requires
        fts.len() <= MAX_HITS,
        vec.len() <= MAX_HITS,
    ensures
        descending(fused(fts, vec, limit)),
        fused(fts, vec, limit).len() == if limit < distinct(fts + vec).len() {
            limit
        } else {
            distinct(fts + vec).len()
        },
        forall|i: int|
            0 <= i < fused(fts, vec, limit).len() ==> candidates(fts, vec).contains(
                #[trigger] fused(fts, vec, limit)[i],
            ),
{
    broadcast use vstd::seq_lib::group_to_multiset_ensures;

    let found = candidates(fts, vec);
    lemma_candidates_well_scored(fts, vec);
    lemma_ranked_is_sorted(found);
    let all = ranked(found);
    let out = fused(fts, vec, limit);
    assert forall|i: int, j: int| 0 <= i < j < out.len() implies !(#[trigger] out[i]).score.below(
        (#[trigger] out[j]).score,
    ) by {
        assert(out[i] == all[i] && out[j] == all[j]);
    }
    assert forall|i: int| 0 <= i < out.len() implies found.contains(#[trigger] out[i]) by {
        assert(out[i] == all[i]);
        assert(all.contains(all[i]));
        assert(all.to_multiset().count(all[i]) > 0);
    }
}

/// An entry that both channels list scores strictly higher than an entry
/// that a single channel lists at the same rank, whatever rank the other
/// channel gives the first.
pub proof fn lemma_overlap_scores_higher(rank: usize, other: usize)
    requires
        rank <= MAX_HITS,
        other <= MAX_HITS,
    ensures
        rrf_score(Some(rank), None).below(rrf_score(Some(rank), Some(other))),
        rrf_score(None, Some(rank)).below(rrf_score(Some(rank), Some(other))),
        rrf_score(Some(rank), None).below(rrf_score(Some(other), Some(rank))),
        rrf_score(None, Some(rank)).below(rrf_score(Some(other), Some(rank))),
{
    lemma_score_in_range(Some(rank), Some(other));
    lemma_score_in_range(Some(other), Some(rank));
    let a = RRF_K + rank;
    let b = RRF_K + other;
    assert(1 * (a * b) < (a + b) * a && 1 * (b * a) < (b + a) * a) by (nonlinear_arith)
        requires
            a >= 60,
            b >= 60,
    ;
}

/// Fusion is a function of the two rankings and the limit: two results for
/// the same inputs hold the same entries in the same order.
pub proof fn lemma_fusion_is_deterministic(
    first: Seq<RrfResult>,
    second: Seq<RrfResult>,
    fts: Seq<Seq<char>>,
    vec: Seq<Seq<char>>,
    limit: nat,
)
    requires
        entries_of(first) == fused(fts, vec, limit),
        entries_of(second) == fused(fts, vec, limit),
    ensures
        first.len() == second.len(),
        forall|i: int| 0 <= i < first.len() ==> entry_of(#[trigger] first[i]) == entry_of(second[i]),
{
    assert(entries_of(first).len() == first.len());
    assert(entries_of(second).len() == second.len());
    assert forall|i: int| 0 <= i < first.len() implies entry_of(#[trigger] first[i]) == entry_of(
        second[i],
    ) by {
        assert(entries_of(first)[i] == entry_of(first[i]));
        assert(entries_of(second)[i] == entry_of(second[i]));
    }
}

/// The rank at which `id` first appears among `hits`, if it does.
fn find_rank(hits: &Vec<ChannelHit>, id: &String) -> (rank: Option<usize>)
    ensures
        rank == rank_of(hit_ids(hits@), id@),
{
    let mut i: usize = 0;
    while i < hits.len()
        invariant
            i <= hits.len(),
            forall|k: int| 0 <= k < i ==> #[trigger] hit_ids(hits@)[k] != id@,
        decreases hits.len() - i,
    {
        if hits[i].id == *id {
            proof {
                lemma_rank_of_found(hit_ids(hits@), id@, i as int);
            }
            return Some(i + 1);
        }
        i += 1;
    }
    proof {
        lemma_rank_of_missing(hit_ids(hits@), id@);
    }
    None
}

/// Whether some result of `results` has the id `id`.
fn has_id(results: &Vec<RrfResult>, id: &String) -> (yes: bool)
    ensures
        yes == entry_ids(entries_of(results@)).contains(id@),
{
    let mut i: usize = 0;
    while i < results.len()
        invariant
            i <= results.len(),
            forall|k: int| 0 <= k < i ==> #[trigger] entry_ids(entries_of(results@))[k] != id@,
        decreases results.len() - i,
    {
        if results[i].0 == *id {
            assert(entry_ids(entries_of(results@))[i as int] == id@);
            return true;
        }
        i += 1;
    }
    false
}

/// The score of an entry with the given ranks.
fn score_for(fts_rank: Option<usize>, vec_rank: Option<usize>) -> (score: RrfScore)
    requires
        fts_rank matches Some(rank) ==> rank <= MAX_HITS,
        vec_rank matches Some(rank) ==> rank <= MAX_HITS,
    ensures
        score == rrf_score(fts_rank, vec_rank),
{
    match (fts_rank, vec_rank) {
        (Some(f), Some(v)) => {
            let a: u64 = RRF_K + f as u64;
            let b: u64 = RRF_K + v as u64;
            assert(a * b <= 0xFFFF_FFFF * 0xFFFF_FFFF) by (nonlinear_arith)
                requires
                    0 <= a <= 0xFFFF_FFFF,
                    0 <= b <= 0xFFFF_FFFF,
            ;
            RrfScore { num: a + b, den: a * b }
        },
        (Some(f), None) => RrfScore { num: 1, den: RRF_K + f as u64 },
        (None, Some(v)) => RrfScore { num: 1, den: RRF_K + v as u64 },
        (None, None) => RrfScore { num: 0, den: 1 },
    }
}

/// The ids of both channels in one list, lexical hits first.
fn all_ids(fts_results: &Vec<ChannelHit>, vec_results: &Vec<ChannelHit>) -> (ids: Vec<String>)
    ensures
        views(ids@) == hit_ids(fts_results@) + hit_ids(vec_results@),
{
    let mut ids: Vec<String> = Vec::new();
    let mut i: usize = 0;
    while i < fts_results.len()
        invariant
            i <= fts_results.len(),
            ids.len() == i,
            views(ids@) == hit_ids(fts_results@).take(i as int),
        decreases fts_results.len() - i,
    {
        let ghost before = ids@;
        ids.push(fts_results[i].id.clone());
        assert forall|k: int| 0 <= k < ids.len() implies views(ids@)[k] == hit_ids(
            fts_results@,
        ).take(i + 1)[k] by {
            if k < i {
                assert(views(before)[k] == hit_ids(fts_results@).take(i as int)[k]);
            }
        }
        assert(views(ids@) =~= hit_ids(fts_results@).take(i + 1));
        i += 1;
    }
    let mut j: usize = 0;
    while j < vec_results.len()
        invariant
            j <= vec_results.len(),
            ids.len() == fts_results.len() + j,
            views(ids@) == hit_ids(fts_results@) + hit_ids(vec_results@).take(j as int),
        decreases vec_results.len() - j,
    {
        let ghost before = ids@;
        ids.push(vec_results[j].id.clone());
        assert forall|k: int| 0 <= k < ids.len() implies views(ids@)[k] == (hit_ids(fts_results@)
            + hit_ids(vec_results@).take(j + 1))[k] by {
            if k < before.len() {
                assert(views(before)[k] == (hit_ids(fts_results@) + hit_ids(vec_results@).take(
                    j as int,
                ))[k]);
            }
        }
        assert(views(ids@) =~= hit_ids(fts_results@) + hit_ids(vec_results@).take(j + 1));
        j += 1;
    }
    assert(views(ids@) =~= hit_ids(fts_results@) + hit_ids(vec_results@));
    ids
}

/// One result for each entry that either channel lists, in the order of
/// first appearance.
fn collect_candidates(fts_results: &Vec<ChannelHit>, vec_results: &Vec<ChannelHit>) -> (results: Vec<
    RrfResult,
>)
    requires
        fts_results.len() <= MAX_HITS,
        vec_results.len() <= MAX_HITS,
    ensures
        entries_of(results@) == candidates(hit_ids(fts_results@), hit_ids(vec_results@)),
{
    let ids = all_ids(fts_results, vec_results);
    let ghost fts = hit_ids(fts_results@);
    let ghost vec = hit_ids(vec_results@);
    let mut results: Vec<RrfResult> = Vec::new();
    let mut i: usize = 0;
    while i < ids.len()
        invariant
            i <= ids.len(),
            fts == hit_ids(fts_results@),
            vec == hit_ids(vec_results@),
            fts_results.len() <= MAX_HITS,
            vec_results.len() <= MAX_HITS,
            entry_ids(entries_of(results@)) == distinct(views(ids@).take(i as int)),
            forall|k: int|
                0 <= k < results.len() ==> #[trigger] entries_of(results@)[k] == entry_for(
                    entries_of(results@)[k].id,
                    fts,
                    vec,
                ),
        decreases ids.len() - i,
    {
        let ghost before = views(ids@).take(i as int);
        let ghost upto = views(ids@).take(i + 1);
        assert(upto.drop_last() =~= before);
        assert(upto.last() == ids@[i as int]@);
        if !has_id(&results, &ids[i]) {
            let id = ids[i].clone();
            let fts_rank = find_rank(fts_results, &id);
            let vec_rank = find_rank(vec_results, &id);
            proof {
                lemma_rank_of_bounds(fts, id@);
                lemma_rank_of_bounds(vec, id@);
            }
            let score = score_for(fts_rank, vec_rank);
            let ghost old_results = results@;
            results.push((id, score, fts_rank, vec_rank));
            assert(entry_ids(entries_of(results@)) =~= entry_ids(entries_of(old_results)).push(
                ids@[i as int]@,
            ));
            assert forall|k: int| 0 <= k < results.len() implies #[trigger] entries_of(
                results@,
            )[k] == entry_for(entries_of(results@)[k].id, fts, vec) by {
                if k < old_results.len() {
                    assert(entries_of(results@)[k] == entries_of(old_results)[k]);
                }
            }
        }
        i += 1;
    }
    assert(views(ids@).take(ids.len() as int) =~= views(ids@));
    assert(entries_of(results@) =~= candidates(fts, vec)) by {
        let wanted = distinct(fts + vec);
        assert(entry_ids(entries_of(results@)) == wanted);
        assert forall|k: int| 0 <= k < results.len() implies entries_of(results@)[k] == candidates(
            fts,
            vec,
        )[k] by {
            assert(entry_ids(entries_of(results@))[k] == wanted[k]);
        }
    }
    results
}

/// Where a result with `score` goes into `sorted`.
fn insert_index(sorted: &Vec<RrfResult>, score: &RrfScore) -> (at: usize)
    ensures
        at == insert_position(entries_of(sorted@), *score),
        at <= sorted.len(),
{
    let mut at: usize = 0;
    while at < sorted.len() && !sorted[at].1.is_below(score)
        invariant
            at <= sorted.len(),
            forall|k: int| 0 <= k < at ==> !(#[trigger] entries_of(sorted@)[k]).score.below(*score),
        decreases sorted.len() - at,
    {
        at += 1;
    }
    proof {
        lemma_insert_position(entries_of(sorted@), *score, at as int);
    }
    at
}

/// `results` ordered by descending score; results with equal scores keep
/// their order.
fn rank_results(results: &Vec<RrfResult>) -> (sorted: Vec<RrfResult>)
    ensures
        entries_of(sorted@) == ranked(entries_of(results@)),
{
    let mut sorted: Vec<RrfResult> = Vec::new();
    let mut i: usize = 0;
    while i < results.len()
        invariant
            i <= results.len(),
            entries_of(sorted@) == ranked(entries_of(results@).take(i as int)),
        decreases results.len() - i,
    {
        let ghost upto = entries_of(results@).take(i + 1);
        assert(upto.drop_last() =~= entries_of(results@).take(i as int));
        let score = results[i].1;
        let at = insert_index(&sorted, &score);
        let ghost old_sorted = sorted@;
        sorted.insert(at, (results[i].0.clone(), score, results[i].2, results[i].3));
        assert(entries_of(sorted@) =~= entries_of(old_sorted).insert(at as int, upto.last()));
        i += 1;
    }
    assert(entries_of(results@).take(results.len() as int) =~= entries_of(results@));
    sorted
}

/// Whether `hits` lists some id twice.
fn lists_an_id_twice(hits: &Vec<ChannelHit>) -> (yes: bool)
    ensures
        yes == !hit_ids(hits@).no_duplicates(),
{
    let ghost ids = hit_ids(hits@);
    let mut i: usize = 0;
    while i < hits.len()
        invariant
            i <= hits.len(),
            ids == hit_ids(hits@),
            forall|a: int, b: int| 0 <= a < i && 0 <= b < i && a != b ==> ids[a] != ids[b],
        decreases hits.len() - i,
    {
        let mut j: usize = 0;
        while j < i
            invariant
                j <= i < hits.len(),
                ids == hit_ids(hits@),
                forall|b: int| 0 <= b < j ==> ids[b] != ids[i as int],
            decreases i - j,
        {
            if hits[j].id == hits[i].id {
                assert(ids[j as int] == ids[i as int]);
                return true;
            }
            j += 1;
        }
        i += 1;
    }
    false
}

/// Combine two ranked lists using Reciprocal Rank Fusion.
///
/// A ranking lists each entry once, at its rank. An entry's score is the sum
/// of what it gets from the rankings that list it. The result is ordered by
/// descending score and cut to `limit` entries after sorting, so that both
/// channels contribute in full. A ranking that lists an entry twice has no
/// single rank for it and is refused, as is one of more than [`MAX_HITS`]
/// hits.
pub fn reciprocal_rank_fusion(
    fts_results: &Vec<ChannelHit>,
    vec_results: &Vec<ChannelHit>,
    limit: usize,
) -> (result: Result<Vec<RrfResult>, AppError>)
    ensures
        result is Ok <==> {
            &&& fts_results.len() <= MAX_HITS
            &&& vec_results.len() <= MAX_HITS
            &&& hit_ids(fts_results@).no_duplicates()
            &&& hit_ids(vec_results@).no_duplicates()
        },
        result matches Ok(results) ==> entries_of(results@) == fused(
            hit_ids(fts_results@),
            hit_ids(vec_results@),
            limit as nat,
        ),
        result matches Err(error) ==> error is InvalidInput && error.reason() == if fts_results.len()
            > MAX_HITS || vec_results.len() > MAX_HITS {
            "Too many hits to fuse"@
        } else {
            "A ranking lists an entry twice"@
        },
{
    if fts_results.len() > MAX_HITS || vec_results.len() > MAX_HITS {
        return Err(AppError::InvalidInput(String::from_str("Too many hits to fuse")));
    }
    if lists_an_id_twice(fts_results) || lists_an_id_twice(vec_results) {
        return Err(AppError::InvalidInput(String::from_str("A ranking lists an entry twice")));
    }
    let found = collect_candidates(fts_results, vec_results);
    let mut results = rank_results(&found);
    let ghost all = entries_of(results@);
    results.truncate(limit);
    assert(entries_of(results@) =~= if limit < all.len() {
        all.take(limit as int)
    } else {
        all
    });
    Ok(results)
}

/// How many hits a hybrid search asks of each channel.
#[derive(Debug, Clone, Copy, PartialEq, Eq, Structural)]
pub struct SearchPlan {
    /// Hits asked of the full-text index.
    pub fts_limit: usize,
    /// Entries asked of the vector channel; `None` where no query embedding
    /// is at hand and the search is lexical only.
    pub vector_limit: Option<usize>,
    /// Nearest entry-level vectors to pull.
    pub entry_pool_limit: usize,
    /// Nearest chunk vectors to pull.
    pub chunk_pool_limit: usize,
}

/// `factor` times `limit`, or `usize::MAX` where that does not fit.
pub open spec fn scaled(limit: usize, factor: nat) -> usize {
    if limit * factor > usize::MAX {
        usize::MAX
    } else {
        (limit * factor) as usize
    }
}

fn double(limit: usize) -> (out: usize)
    ensures
        out == scaled(limit, 2),
{
    if limit > usize::MAX / 2 {
        usize::MAX
    } else {
        limit * 2
    }
}

fn triple(limit: usize) -> (out: usize)
    ensures
        out == scaled(limit, 3),
{
    if limit > usize::MAX / 3 {
        usize::MAX
    } else {
        limit * 3
    }
}

/// The plan of a hybrid search for `limit` results.
///
/// Each channel is asked for twice the limit, so that fusion has candidates
/// to choose from. The vector channel in turn pulls twice its limit of entry
/// vectors and three times its limit of chunk vectors, because several
/// chunks may belong to one entry and archived entries are filtered out
/// afterwards. Without a query embedding the vector channel is left out.
pub fn plan_hybrid_search(limit: usize, has_embedding: bool) -> (plan: SearchPlan)
    ensures
        plan.fts_limit == scaled(limit, 2),
        has_embedding ==> plan.vector_limit == Some(scaled(limit, 2)) && plan.entry_pool_limit
            == scaled(scaled(limit, 2), 2) && plan.chunk_pool_limit == scaled(scaled(limit, 2), 3),
        !has_embedding ==> plan.vector_limit == None::<usize> && plan.entry_pool_limit == 0
            && plan.chunk_pool_limit == 0,
{
    let channel = double(limit);
    if has_embedding {
        SearchPlan {
            fts_limit: channel,
            vector_limit: Some(channel),
            entry_pool_limit: double(channel),
            chunk_pool_limit: triple(channel),
        }
    } else {
        SearchPlan {
            fts_limit: channel,
            vector_limit: None,
            entry_pool_limit: 0,
            chunk_pool_limit: 0,
        }
    }
}

/// `text` with every double quote doubled.
pub open spec fn escape_quotes(text: Seq<char>) -> Seq<char>
    decreases text.len(),
{
    if text.len() == 0 {
        Seq::empty()
    } else if text.last() == '"' {
        escape_quotes(text.drop_last()).push('"').push('"')
    } else {
        escape_quotes(text.drop_last()).push(text.last())
    }
}

/// The prefix term for `word`: the word in double quotes, followed by a
/// star.
pub open spec fn prefix_term(word: Seq<char>) -> Seq<char> {
    seq!['"'] + word + seq!['"', '*']
}

/// The prefix terms of `found`, in order.
pub open spec fn prefix_terms(found: Seq<Seq<char>>) -> Seq<Seq<char>> {
    Seq::new(found.len(), |i: int| prefix_term(found[i]))
}

/// The full-text query for `query`: quotes escaped, each word made a prefix
/// term, the terms separated by single spaces.
pub open spec fn match_query(query: Seq<char>) -> Seq<char> {
    joined(prefix_terms(words(escape_quotes(query))), " "@)
}

/// The ranking of a lexical-only search: every hit at its rank, scored
/// `1 / (60 + rank)`, with no vector rank.
pub open spec fn lexical_only(ids: Seq<Seq<char>>) -> Seq<FusedEntry> {
    Seq::new(
        ids.len(),
        |i: int|
            FusedEntry {
                id: ids[i],
                score: rrf_score(Some((i + 1) as usize), None),
                fts_rank: Some((i + 1) as usize),
                vec_rank: None,
            },
    )
}

fn escaped(query: &str) -> (out: String)
    ensures
        out@ == escape_quotes(query@),
{
    let chars = to_chars(query);
    let mut out = String::new();
    let mut i: usize = 0;
    assert(chars@.take(0) =~= Seq::empty());
    while i < chars.len()
        invariant
            i <= chars.len(),
            chars@ == query@,
            out@ == escape_quotes(chars@.take(i as int)),
        decreases chars.len() - i,
    {
        assert(chars@.take(i + 1).drop_last() =~= chars@.take(i as int));
        if chars[i] == '"' {
            push_char(&mut out, '"');
            push_char(&mut out, '"');
        } else {
            push_char(&mut out, chars[i]);
        }
        i += 1;
    }
    assert(chars@.take(chars.len() as int) =~= chars@);
    out
}

/// The match text for the words of a query: each word as a prefix term,
/// the terms separated by single spaces.
pub fn prefix_query(found: &Vec<String>) -> (out: String)
    ensures
        out@ == joined(prefix_terms(views(found@)), " "@),
{
    let mut terms: Vec<String> = Vec::new();
    let mut i: usize = 0;
    while i < found.len()
        invariant
            i <= found.len(),
            terms.len() == i,
            forall|k: int| 0 <= k < i ==> #[trigger] terms@[k]@ == prefix_term(found@[k]@),
        decreases found.len() - i,
    {
        let mut term = String::from_str("\"");
        term.append(found[i].as_str());
        term.append("\"*");
        proof {
            reveal_strlit("\"");
            reveal_strlit("\"*");
            assert(term@ =~= prefix_term(found@[i as int]@));
        }
        terms.push(term);
        i += 1;
    }
    assert(views(terms@) =~= prefix_terms(views(found@)));
    join(&terms, " ")
}

/// The query to hand to the full-text index for what the user typed.
///
/// Double quotes are escaped, every word becomes a prefix term of its own so
/// that partial words match, and the index combines the terms with AND. A
/// query that is empty or all whitespace has no terms: the answer is `None`,
/// and the search has no results.
pub fn fts_query(query: &str) -> (out: Option<String>)
    ensures
        out is None <==> blank(query@),
        out matches Some(text) ==> text@ == match_query(query@),
{
    if is_blank(query) {
        return None;
    }
    let safe = escaped(query);
    let found = split_words(safe.as_str());
    Some(prefix_query(&found))
}

/// The ranking of a search that has the lexical channel only, for when no
/// embedding is available: every hit keeps its rank and gets the score of
/// that rank alone. A ranking of more than [`MAX_HITS`] hits is refused.
pub fn fts_only_results(fts_results: &Vec<ChannelHit>) -> (result: Result<Vec<RrfResult>, AppError>)
    ensures
        result is Ok <==> fts_results.len() <= MAX_HITS,
        result matches Ok(results) ==> entries_of(results@) == lexical_only(hit_ids(fts_results@)),
        result matches Err(error) ==> error is InvalidInput,
{
    if fts_results.len() > MAX_HITS {
        return Err(AppError::InvalidInput(String::from_str("Too many hits to rank")));
    }
    let mut results: Vec<RrfResult> = Vec::new();
    let mut i: usize = 0;
    while i < fts_results.len()
        invariant
            i <= fts_results.len() <= MAX_HITS,
            results.len() == i,
            forall|k: int|
                0 <= k < i ==> #[trigger] entries_of(results@)[k] == lexical_only(
                    hit_ids(fts_results@),
                )[k],
        decreases fts_results.len() - i,
    {
        let rank = i + 1;
        let score = score_for(Some(rank), None);
        let ghost before = results@;
        results.push((fts_results[i].id.clone(), score, Some(rank), None));
        assert forall|k: int| 0 <= k < i + 1 implies #[trigger] entries_of(results@)[k]
            == lexical_only(hit_ids(fts_results@))[k] by {
            if k < i {
                assert(entries_of(before)[k] == lexical_only(hit_ids(fts_results@))[k]);
            }
        }
        i += 1;
    }
    assert(entries_of(results@) =~= lexical_only(hit_ids(fts_results@)));
    Ok(results)
}

/// Without a vector channel fusion is lexical only: every fused entry has a
/// lexical rank and no vector rank.
pub proof fn lemma_fusion_without_vectors(fts: Seq<Seq<char>>, limit: nat)
    requires
        fts.len() <= MAX_HITS,
    ensures
        forall|i: int|
            0 <= i < fused(fts, Seq::empty(), limit).len() ==> {
                &&& (#[trigger] fused(fts, Seq::empty(), limit)[i]).vec_rank is None
                &&& fused(fts, Seq::empty(), limit)[i].fts_rank is Some
            },
{
    let none = Seq::<Seq<char>>::empty();
    let out = fused(fts, none, limit);
    lemma_fused_is_descending(fts, none, limit);
    assert(fts + none =~= fts);
    assert forall|i: int| 0 <= i < out.len() implies (#[trigger] out[i]).vec_rank is None
        && out[i].fts_rank is Some by {
        let found = candidates(fts, none);
        assert(found.contains(out[i]));
        let k = choose|k: int| 0 <= k < found.len() && found[k] == out[i];
        let id = distinct(fts)[k];
        lemma_distinct_lists_each_once(fts);
        assert(distinct(fts).contains(id));
        lemma_rank_of_bounds(fts, id);
    }
}

/// A list that names no id twice is its own list of distinct ids.
pub proof fn lemma_distinct_of_distinct(ids: Seq<Seq<char>>)
    requires
        ids.no_duplicates(),
    ensures
        distinct(ids) == ids,
    decreases ids.len(),
{
    if ids.len() > 0 {
        let front = ids.drop_last();
        assert(front.no_duplicates()) by {
            assert forall|i: int, j: int|
                0 <= i < front.len() && 0 <= j < front.len() && i != j implies front[i]
                != front[j] by {
                assert(front[i] == ids[i] && front[j] == ids[j]);
            }
        }
        lemma_distinct_of_distinct(front);
        if front.contains(ids.last()) {
            let k = choose|k: int| 0 <= k < front.len() && front[k] == ids.last();
            assert(ids[k] == ids[ids.len() - 1]);
        }
        assert(front.push(ids.last()) =~= ids);
    } else {
        assert(ids =~= Seq::empty());
    }
}

proof fn lemma_ranked_keeps_lexical_order(fts: Seq<Seq<char>>, upto: int)
    requires
        fts.len() <= MAX_HITS,
        0 <= upto <= fts.len(),
    ensures
        ranked(lexical_only(fts).take(upto)) == lexical_only(fts).take(upto),
    decreases upto,
{
    let all = lexical_only(fts);
    if upto == 0 {
        assert(all.take(0) =~= Seq::empty());
    } else {
        lemma_ranked_keeps_lexical_order(fts, upto - 1);
        let sorted = all.take(upto - 1);
        let last = all[upto - 1];
        assert(all.take(upto).drop_last() =~= sorted);
        assert(all.take(upto).last() == last);
        assert(last.score.num == 1 && last.score.den == RRF_K + upto) by {
            assert(((upto - 1) + 1) as usize == upto);
            assert((RRF_K + upto) as u64 == RRF_K + upto);
        }
        assert forall|j: int| 0 <= j < sorted.len() implies !(#[trigger] sorted[j]).score.below(
            last.score,
        ) by {
            assert(sorted[j] == all[j]);
            assert((j + 1) as usize == j + 1);
            assert((RRF_K + (j + 1)) as u64 == RRF_K + (j + 1));
            assert(sorted[j].score.num == 1 && sorted[j].score.den == RRF_K + j + 1);
            assert(!(1 * (RRF_K + upto) < 1 * (RRF_K + j + 1)));
        }
        lemma_insert_position(sorted, last.score, upto - 1);
        assert(sorted.insert(upto - 1, last) =~= all.take(upto));
    }
}

/// Without a vector channel, fusion degenerates to the lexical ranking:
/// the hits keep their order and their ranks, each scored by its rank
/// alone, and the list is cut to `limit`.
pub proof fn lemma_fusion_without_vectors_keeps_order(fts: Seq<Seq<char>>, limit: nat)
    requires
        fts.len() <= MAX_HITS,
        fts.no_duplicates(),
    ensures
        fused(fts, Seq::empty(), limit) == if limit < fts.len() {
            lexical_only(fts).take(limit as int)
        } else {
            lexical_only(fts)
        },
{
    let none = Seq::<Seq<char>>::empty();
    assert(fts + none =~= fts);
    lemma_distinct_of_distinct(fts);
    let found = candidates(fts, none);
    let all = lexical_only(fts);
    assert(found =~= all) by {
        assert forall|i: int| 0 <= i < fts.len() implies found[i] == all[i] by {
            assert forall|k: int| 0 <= k < i implies #[trigger] fts[k] != fts[i] by {}
            lemma_rank_of_found(fts, fts[i], i);
            assert(rank_of(none, fts[i]) == None::<usize>);
        }
    }
    lemma_ranked_keeps_lexical_order(fts, fts.len() as int);
    assert(all.take(fts.len() as int) =~= all);
}

/// `distinct` keeps exactly the ids of `ids` and lists none of them twice.
pub proof fn lemma_distinct_lists_each_once(ids: Seq<Seq<char>>)
    ensures
        distinct(ids).no_duplicates(),
        forall|id: Seq<char>| #[trigger] distinct(ids).contains(id) <==> ids.contains(id),
    decreases ids.len(),
{
    if ids.len() > 0 {
        let front = ids.drop_last();
        let last = ids.last();
        let before = distinct(front);
        let all = distinct(ids);
        lemma_distinct_lists_each_once(front);
        assert forall|id: Seq<char>| #[trigger] all.contains(id) <==> ids.contains(id) by {
            if all.contains(id) {
                let k = choose|k: int| 0 <= k < all.len() && all[k] == id;
                if k < before.len() {
                    assert(before[k] == id);
                    assert(before.contains(id));
                    let at = choose|at: int| 0 <= at < front.len() && front[at] == id;
                    assert(ids[at] == id);
                } else {
                    assert(ids[ids.len() - 1] == id);
                }
            }
            if ids.contains(id) {
                let at = choose|at: int| 0 <= at < ids.len() && ids[at] == id;
                if at < front.len() {
                    assert(front[at] == id);
                    assert(front.contains(id));
                    assert(before.contains(id));
                    let k = choose|k: int| 0 <= k < before.len() && before[k] == id;
                    assert(all[k] == id);
                } else if before.contains(last) {
                    assert(all.contains(id));
                } else {
                    assert(all[before.len() as int] == id);
                }
            }
        }
        if !before.contains(last) {
            assert forall|i: int, j: int| 0 <= i < all.len() && 0 <= j < all.len() && i != j implies all[i]
                != all[j] by {
                if i < before.len() && j < before.len() {
                    assert(before[i] != before[j]);
                } else if i < before.len() {
                    assert(before.contains(before[i]));
                } else {
                    assert(before.contains(before[j]));
                }
            }
        }
    }
}

/// Fusion lists every entry of either channel, and none of them twice.
pub proof fn lemma_candidates_list_each_entry_once(fts: Seq<Seq<char>>, vec: Seq<Seq<char>>)
    ensures
        entry_ids(candidates(fts, vec)).no_duplicates(),
        forall|id: Seq<char>|
            #[trigger] entry_ids(candidates(fts, vec)).contains(id) <==> fts.contains(id)
                || vec.contains(id),
{
    let ids = distinct(fts + vec);
    lemma_distinct_lists_each_once(fts + vec);
    assert(entry_ids(candidates(fts, vec)) =~= ids);
    assert forall|id: Seq<char>| #[trigger] (fts + vec).contains(id) <==> fts.contains(id)
        || vec.contains(id) by {
        if (fts + vec).contains(id) {
            let at = choose|at: int| 0 <= at < (fts + vec).len() && (fts + vec)[at] == id;
            if at < fts.len() {
                assert(fts[at] == id);
            } else {
                assert(vec[at - fts.len()] == id);
            }
        }
        if fts.contains(id) {
            let at = choose|at: int| 0 <= at < fts.len() && fts[at] == id;
            assert((fts + vec)[at] == id);
        }
        if vec.contains(id) {
            let at = choose|at: int| 0 <= at < vec.len() && vec[at] == id;
            assert((fts + vec)[fts.len() + at] == id);
        }
    }
}

/// The query for the hits of the lexical channel, archived entries
/// included. Its parameters are the match text and the limit.
pub const FTS_ANY_SQL: &'static str =
    "SELECT j.id, bm25(journals_fts) as rank FROM journals_fts fts JOIN journals j ON j.rowid = fts.rowid WHERE journals_fts MATCH ?1 ORDER BY rank LIMIT ?2";

/// The query for the hits of the lexical channel among the entries that are
/// not archived. Its parameters are the match text and the limit.
pub const FTS_UNARCHIVED_SQL: &'static str =
    "SELECT j.id, bm25(journals_fts) as rank FROM journals_fts fts JOIN journals j ON j.rowid = fts.rowid WHERE journals_fts MATCH ?1 AND j.is_archived = 0 ORDER BY rank LIMIT ?2";

/// A lexical search resolved to a fixed query and its match text.
#[derive(Debug)]
pub struct LexicalQuery {
    pub sql: &'static str,
    pub match_text: String,
}

/// Resolves the lexical channel of a search: the match text for what the
/// user typed, and the statement that leaves archived entries out unless the
/// search includes them. A query that is empty or all whitespace searches
/// nothing: the answer is `None`, and the channel has no hits.
pub fn lexical_query(query: &str, include_archived: bool) -> (out: Option<LexicalQuery>)
    ensures
        out is None <==> blank(query@),
        out matches Some(found) ==> found.match_text@ == match_query(query@) && found.sql@
            == if include_archived {
            FTS_ANY_SQL@
        } else {
            FTS_UNARCHIVED_SQL@
        },
{
    match fts_query(query) {
        None => None,
        Some(match_text) => Some(
            LexicalQuery {
                sql: if include_archived {
                    FTS_ANY_SQL
                } else {
                    FTS_UNARCHIVED_SQL
                },
                match_text,
            },
        ),
    }
}

/// The store has the entry that `ranked` names, and the entry takes part in
/// the search: `fetched` is that entry, and it is not archived unless the
/// search includes archived entries.
pub open spec fn answers(
    fetched: Option<Journal>,
    ranked: RrfResult,
    include_archived: bool,
) -> bool {
    fetched matches Some(journal) && journal.id@ == ranked.0@ && (include_archived
        || !journal.is_archived)
}

/// The results of a search: the ranked entries that the store answered
/// for, in rank order, each with its entry, its score and its ranks.
/// `journals` holds what the store gave for each ranked id.
pub open spec fn search_results(
    ranking: Seq<RrfResult>,
    journals: Seq<Option<Journal>>,
    include_archived: bool,
) -> Seq<HybridSearchResult>
    decreases ranking.len(),
{
    if ranking.len() == 0 || journals.len() != ranking.len() {
        Seq::empty()
    } else {
        let before = search_results(ranking.drop_last(), journals.drop_last(), include_archived);
        if answers(journals.last(), ranking.last(), include_archived) {
            before.push(
                HybridSearchResult {
                    journal: journals.last()->0,
                    score: ranking.last().1,
                    fts_rank: ranking.last().2,
                    vec_rank: ranking.last().3,
                },
            )
        } else {
            before
        }
    }
}

/// Put the results of a search together from a ranking and what the store
/// gave for each ranked id.
///
/// An id that the store no longer has (`None`) is skipped: the corpus may
/// have changed since the index was written, and that ends no search. An
/// entry that is archived is left out unless the search includes archived
/// entries, whichever channel proposed it. Lists of different lengths give
/// nothing.
pub fn hybrid_results(
    ranking: &Vec<RrfResult>,
    journals: &Vec<Option<Journal>>,
    include_archived: bool,
) -> (results: Vec<HybridSearchResult>)
    ensures
        results@ == search_results(ranking@, journals@, include_archived),
        forall|k: int|
            0 <= k < results.len() ==> include_archived || !(#[trigger] results[k]).journal.is_archived,
{
    let mut results: Vec<HybridSearchResult> = Vec::new();
    if ranking.len() != journals.len() {
        return results;
    }
    let mut i: usize = 0;
    assert(ranking@.take(0) =~= Seq::empty());
    while i < ranking.len()
        invariant
            i <= ranking.len() == journals.len(),
            results@ == search_results(
                ranking@.take(i as int),
                journals@.take(i as int),
                include_archived,
            ),
            forall|k: int|
                0 <= k < results.len() ==> include_archived || !(
                #[trigger] results[k]).journal.is_archived,
        decreases ranking.len() - i,
    {
        assert(ranking@.take(i + 1).drop_last() =~= ranking@.take(i as int));
        assert(journals@.take(i + 1).drop_last() =~= journals@.take(i as int));
        if let Some(journal) = &journals[i] {
            if journal.id == ranking[i].0 && (include_archived || !journal.is_archived) {
                let ghost before = results@;
                results.push(
                    HybridSearchResult {
                        journal: journal.copy(),
                        score: ranking[i].1,
                        fts_rank: ranking[i].2,
                        vec_rank: ranking[i].3,
                    },
                );
                assert forall|k: int| 0 <= k < results.len() implies include_archived || !(
                #[trigger] results[k]).journal.is_archived by {
                    if k < before.len() {
                        assert(results[k] == before[k]);
                    }
                }
            }
        }
        i += 1;
    }
    assert(ranking@.take(ranking.len() as int) =~= ranking@);
    assert(journals@.take(ranking.len() as int) =~= journals@);
    results
}

/// Every result of a search names a ranked entry that the store has, with
/// the score and the ranks of the ranking: none refers to a missing id.
pub proof fn lemma_results_are_answered(
    ranking: Seq<RrfResult>,
    journals: Seq<Option<Journal>>,
    include_archived: bool,
    k: int,
)
    requires
        journals.len() == ranking.len(),
        0 <= k < search_results(ranking, journals, include_archived).len(),
    ensures
        exists|i: int|
            0 <= i < ranking.len() && answers(
                #[trigger] journals[i],
                ranking[i],
                include_archived,
            ) && search_results(ranking, journals, include_archived)[k] == (HybridSearchResult {
                journal: journals[i]->0,
                score: ranking[i].1,
                fts_rank: ranking[i].2,
                vec_rank: ranking[i].3,
            }),
    decreases ranking.len(),
{
    let all = search_results(ranking, journals, include_archived);
    let front = search_results(ranking.drop_last(), journals.drop_last(), include_archived);
    if k < front.len() {
        lemma_results_are_answered(ranking.drop_last(), journals.drop_last(), include_archived, k);
        let i = choose|i: int|
            0 <= i < ranking.drop_last().len() && answers(
                #[trigger] journals.drop_last()[i],
                ranking.drop_last()[i],
                include_archived,
            ) && front[k] == (HybridSearchResult {
                journal: journals.drop_last()[i]->0,
                score: ranking.drop_last()[i].1,
                fts_rank: ranking.drop_last()[i].2,
                vec_rank: ranking.drop_last()[i].3,
            });
        assert(journals[i] == journals.drop_last()[i]);
        assert(ranking[i] == ranking.drop_last()[i]);
        assert(all[k] == front[k]);
    } else {
        let i = ranking.len() - 1;
        assert(journals[i] == journals.last());
    }
}

/// A search without a vector channel shows lexical hits only: every result
/// is an entry that the lexical channel listed, has no vector rank, and is
/// not archived unless the search includes archived entries.
pub proof fn lemma_lexical_search_shows_lexical_hits(
    ranking: Seq<RrfResult>,
    ids: Seq<Seq<char>>,
    journals: Seq<Option<Journal>>,
    include_archived: bool,
    k: int,
)
    requires
        entries_of(ranking) == lexical_only(ids),
        journals.len() == ranking.len(),
        0 <= k < search_results(ranking, journals, include_archived).len(),
    ensures
        search_results(ranking, journals, include_archived)[k].vec_rank is None,
        search_results(ranking, journals, include_archived)[k].fts_rank is Some,
        ids.contains(search_results(ranking, journals, include_archived)[k].journal.id@),
        include_archived || !search_results(
            ranking,
            journals,
            include_archived,
        )[k].journal.is_archived,
{
    lemma_results_are_answered(ranking, journals, include_archived, k);
    let i = choose|i: int|
        0 <= i < ranking.len() && answers(#[trigger] journals[i], ranking[i], include_archived)
            && search_results(ranking, journals, include_archived)[k] == (HybridSearchResult {
            journal: journals[i]->0,
            score: ranking[i].1,
            fts_rank: ranking[i].2,
            vec_rank: ranking[i].3,
        });
    assert(entries_of(ranking).len() == ranking.len());
    assert(entries_of(ranking)[i] == entry_of(ranking[i]));
    assert(lexical_only(ids)[i].id == ids[i]);
}

} // verus!
