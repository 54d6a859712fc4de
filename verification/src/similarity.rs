//! Similarity of two short strings, and the choice of the tracks whose titles
//! are most similar to a given text.
//!
//! A similarity is a number from 0.0 to 1.0 in IEEE 754 binary64. It is
//! carried here as its bit pattern: among numbers of that range the greater
//! number has the greater pattern, so patterns are compared as integers.

use crate::catalog::{track_views, Track, TrackView};
use crate::ranking::{
    before, is_stable_order, lists, ordered, stable_order, stable_order_exists,
    stable_order_is_sorted,
};
use vstd::prelude::*;

verus! {

/// The Jaro similarity of `a` and `b`, as `strsim::jaro` computes it: the bit
/// pattern of the number that it returns.
pub uninterp spec fn jaro_bits(a: Seq<char>, b: Seq<char>) -> u64;

/// The bit pattern of 1.0, the similarity of equal strings.
pub const SCORE_ONE: u64 = 0x3FF0_0000_0000_0000;

/// The bit pattern of 0.9: a candidate whose similarity is at least this is
/// taken without asking.
pub const AUTO_REPLACE: u64 = 0x3FEC_CCCC_CCCC_CCCD;

/// How many candidates are offered at most.
pub const SUGGESTIONS: usize = 5;

/// Calls `strsim::jaro`, whose result depends on the two strings alone and
/// lies between 0.0 and 1.0, and hands back the bits of that `f64`.
#[verifier::external_body]
fn jaro(a: &str, b: &str) -> (bits: u64)
    ensures
        bits == jaro_bits(a@, b@),
        bits <= SCORE_ONE,
{
    strsim::jaro(a, b).to_bits()
}

/// The similarity of `a` and `b`.
pub fn similarity(a: &str, b: &str) -> (bits: u64)
    ensures
        bits == jaro_bits(a@, b@),
        bits <= SCORE_ONE,
{
    jaro(a, b)
}

/// A track offered in place of a missing one, with the similarity of its
/// title to the name that was looked for.
#[derive(Debug, Clone, PartialEq, Eq)]
pub struct Candidate {
    pub score: u64,
    pub path: String,
}

/// What a `Candidate` holds, as mathematical values.
pub struct CandidateView {
    pub score: u64,
    pub path: Seq<char>,
}

impl View for Candidate {
    type V = CandidateView;

    open spec fn view(&self) -> CandidateView {
        CandidateView { score: self.score, path: self.path@ }
    }
}

/// The views of a sequence of candidates.
pub open spec fn candidate_views(v: Seq<Candidate>) -> Seq<CandidateView> {
    v.map_values(|c: Candidate| c@)
}

/// The similarity of each track's title to `key`.
pub open spec fn scores_of(tracks: Seq<TrackView>, key: Seq<char>) -> Seq<u64> {
    tracks.map_values(|t: TrackView| jaro_bits(t.title, key))
}

/// The track at index `i` as a candidate for `key`.
pub open spec fn candidate_at(tracks: Seq<TrackView>, key: Seq<char>, i: int) -> CandidateView {
    CandidateView { score: jaro_bits(tracks[i].title, key), path: tracks[i].path }
}

/// How many candidates are offered among `n` tracks.
pub open spec fn offered(n: nat, limit: nat) -> nat {
    if n < limit {
        n
    } else {
        limit
    }
}

/// The `limit` tracks that are most similar to `key`: the most similar
/// first, and of two that are equally similar the one that the catalog holds
/// first.
pub open spec fn best_candidates(tracks: Seq<TrackView>, key: Seq<char>, limit: nat) -> Seq<
    CandidateView,
> {
    let order = stable_order(scores_of(tracks, key), true);
    Seq::new(offered(tracks.len(), limit), |k: int| candidate_at(tracks, key, order[k] as int))
}

/// The five tracks whose titles are most similar to `key`, as
/// `best_candidates` orders them.
pub fn suggest(tracks: &Vec<Track>, key: &str) -> (found: Vec<Candidate>)
    ensures
        candidate_views(found@) == best_candidates(track_views(tracks@), key@, SUGGESTIONS as nat),
{
    let ghost all = track_views(tracks@);
    let mut scores: Vec<u64> = Vec::new();
    let mut i: usize = 0;
    while i < tracks.len()
        invariant
            i <= tracks.len(),
            all == track_views(tracks@),
            scores@ == scores_of(all, key@).take(i as int),
        decreases tracks.len() - i,
    {
        let s = jaro(tracks[i].title.as_str(), key);
        scores.push(s);
        assert(scores@ =~= scores_of(all, key@).take(i + 1));
        i += 1;
    }
    assert(scores@ =~= scores_of(all, key@));
    let order = ordered(&scores, true);
    let count: usize = if tracks.len() < SUGGESTIONS {
        tracks.len()
    } else {
        SUGGESTIONS
    };
    let mut found: Vec<Candidate> = Vec::new();
    let mut k: usize = 0;
    while k < count
        invariant
            k <= count <= tracks.len(),
            all == track_views(tracks@),
            scores@ == scores_of(all, key@),
            is_stable_order(scores@, true, order@),
            found@.len() == k,
            forall|j: int|
                0 <= j < k ==> (#[trigger] found@[j])@ == candidate_at(all, key@, order@[j] as int),
        decreases count - k,
    {
        let at: usize = order[k];
        found.push(Candidate { score: scores[at], path: tracks[at].path.clone() });
        k += 1;
    }
    assert(candidate_views(found@) =~= best_candidates(all, key@, SUGGESTIONS as nat));
    found
}

/// The candidates stand in the order of their similarity, the most similar
/// first.
pub proof fn candidates_are_ranked(
    tracks: Seq<TrackView>,
    key: Seq<char>,
    limit: nat,
    a: int,
    b: int,
)
    requires
        tracks.len() <= usize::MAX,
        0 <= a <= b < offered(tracks.len(), limit),
    ensures
        best_candidates(tracks, key, limit)[a].score >= best_candidates(tracks, key, limit)[b].score,
{
    stable_order_is_sorted(scores_of(tracks, key), true, a, b);
}

/// No track is more similar to the key than the first candidate.
pub proof fn first_candidate_is_most_similar(
    tracks: Seq<TrackView>,
    key: Seq<char>,
    limit: nat,
    j: int,
)
    requires
        tracks.len() <= usize::MAX,
        limit > 0,
        0 <= j < tracks.len(),
    ensures
        best_candidates(tracks, key, limit).len() > 0,
        best_candidates(tracks, key, limit)[0].score >= jaro_bits(tracks[j].title, key),
{
    let scores = scores_of(tracks, key);
    stable_order_exists(scores, true);
    let order = stable_order(scores, true);
    assert(lists(order, j));
    let m = choose|m: int| 0 <= m < order.len() && #[trigger] order[m] == j;
    if m > 0 {
        assert(before(scores, true, order[0] as int, order[m] as int));
    }
}

} // verus!
