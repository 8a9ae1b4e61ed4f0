//! Ranking scored items and deciding how many of them are shown. Scores are bit patterns of
//! single-precision numbers.

use vstd::prelude::*;
use vstd::seq_lib::*;
use vstd::string::*;

use crate::failure::{plain_failure, Failure, FailureView};
use crate::search::{Match, MatchView, SearchRequest};
use crate::semantic_index::{group_views, Group, GroupView};
use crate::sort::{is_sorted, may_lead, sort, Ordered};
use crate::text;

verus! {

/// Whether a bit pattern is that of a finite number that is not below zero; negative zero counts.
pub open spec fn is_finite_nonnegative(bits: u32) -> bool {
    bits < 0x7f80_0000 || bits == 0x8000_0000
}

/// Whether a bit pattern is that of no number.
pub open spec fn is_nan(bits: u32) -> bool {
    0x7f80_0000 < bits < 0x8000_0000 || bits > 0xff80_0000
}

/// Where a number stands among all numbers; the two zeros stand level.
pub open spec fn numeric_key(bits: u32) -> int {
    if bits < 0x8000_0000 {
        bits as int
    } else {
        0x8000_0000 - bits
    }
}

/// Whether one number is at least another. What is no number is not comparable.
pub open spec fn is_at_least(left: u32, right: u32) -> bool {
    !is_nan(left) && !is_nan(right) && numeric_key(left) >= numeric_key(right)
}

/// Where a bit pattern stands in the total order of IEEE 754: negative zero below positive zero,
/// and what is no number at the two ends.
pub open spec fn total_order_key(bits: u32) -> int {
    if bits < 0x8000_0000 {
        bits as int
    } else {
        0x7fff_ffff - bits
    }
}

fn nan(bits: u32) -> (b: bool)
    ensures
        b == is_nan(bits),
{
    (0x7f80_0000 < bits && bits < 0x8000_0000) || bits > 0xff80_0000
}

/// Tells whether one number is at least another.
pub fn at_least(left: u32, right: u32) -> (b: bool)
    ensures
        b == is_at_least(left, right),
{
    if nan(left) || nan(right) {
        return false;
    }
    let left_key: i64 = if left < 0x8000_0000 {
        left as i64
    } else {
        0x8000_0000 - left as i64
    };
    let right_key: i64 = if right < 0x8000_0000 {
        right as i64
    } else {
        0x8000_0000 - right as i64
    };
    left_key >= right_key
}

/// A group of the index and its score.
#[derive(Debug, Clone, Copy, PartialEq, Eq, Structural)]
pub struct Candidate {
    pub group: usize,
    pub score: u32,
}

impl Ordered for Candidate {
    /// The higher score comes first; of equal scores, the earlier group.
    open spec fn is_before(self, other: Self) -> bool {
        ||| total_order_key(self.score) > total_order_key(other.score)
        ||| total_order_key(self.score) == total_order_key(other.score) && self.group < other.group
    }

    proof fn before_is_asymmetric(self, other: Self) {
    }

    proof fn level_is_transitive(self, middle: Self, other: Self) {
    }

    fn before(&self, other: &Self) -> (before: bool) {
        let own: i64 = if self.score < 0x8000_0000 {
            self.score as i64
        } else {
            0x7fff_ffff - self.score as i64
        };
        let others: i64 = if other.score < 0x8000_0000 {
            other.score as i64
        } else {
            0x7fff_ffff - other.score as i64
        };
        own > others || (own == others && self.group < other.group)
    }
}

/// Whether a group is left out: its score for the negative query reaches the threshold.
pub open spec fn is_excluded(exclusion: Option<(Seq<u32>, u32)>, group: int) -> bool {
    match exclusion {
        Some((scores, threshold)) => is_at_least(scores[group], threshold),
        None => false,
    }
}

/// The groups before `end` that are not left out, with their scores.
pub open spec fn candidates(
    scores: Seq<u32>,
    exclusion: Option<(Seq<u32>, u32)>,
    end: nat,
) -> Seq<Candidate>
    decreases end,
{
    if end == 0 {
        Seq::empty()
    } else {
        let earlier = candidates(scores, exclusion, (end - 1) as nat);
        let group = (end - 1) as int;
        if is_excluded(exclusion, group) {
            earlier
        } else {
            earlier.push(Candidate { group: group as usize, score: scores[group] })
        }
    }
}

/// Whether `ranked` is the best of the candidates, best first, and no more than `limit` of them.
pub open spec fn is_ranking(ranked: Seq<Candidate>, all: Seq<Candidate>, limit: nat) -> bool {
    exists|sorted: Seq<Candidate>|
        {
            &&& #[trigger] is_sorted(sorted, true)
            &&& sorted.to_multiset() == all.to_multiset()
            &&& ranked == if limit < sorted.len() {
                sorted.take(limit as int)
            } else {
                sorted
            }
        }
}

/// The values of a threshold and the scores that are held against it.
pub open spec fn exclusion_view(exclusion: Option<(&[u32], u32)>) -> Option<(Seq<u32>, u32)> {
    match exclusion {
        Some((scores, threshold)) => Some((scores@, threshold)),
        None => None,
    }
}

/// Ranks groups by their scores, without those that the negative query excludes.
pub fn rank_excluding(scores: &[u32], top_k: usize, exclusion: Option<(&[u32], u32)>) -> (ranked:
    Vec<Candidate>)
    requires
        exclusion matches Some((negative, _)) ==> negative@.len() == scores@.len(),
    ensures
        is_ranking(
            ranked@,
            candidates(scores@, exclusion_view(exclusion), scores@.len()),
            top_k as nat,
        ),
        forall|i: int| 0 <= i < ranked@.len() ==> (#[trigger] ranked@[i]).group < scores@.len(),
{
    let mut all: Vec<Candidate> = Vec::new();
    let ghost excluded = exclusion_view(exclusion);
    let mut group: usize = 0;
    while group < scores.len()
        invariant
            group <= scores@.len(),
            excluded == exclusion_view(exclusion),
            exclusion matches Some((negative, _)) ==> negative@.len() == scores@.len(),
            all@ == candidates(scores@, excluded, group as nat),
        decreases scores@.len() - group,
    {
        let left_out = match exclusion {
            Some((negative, threshold)) => at_least(negative[group], threshold),
            None => false,
        };
        if !left_out {
            all.push(Candidate { group, score: scores[group] });
        }
        group = group + 1;
    }
    let mut ranked = sort(all);
    let ghost sorted = ranked@;
    if ranked.len() > top_k {
        ranked.truncate(top_k);
        assert(ranked@ =~= sorted.take(top_k as int));
    }
    assert(is_sorted(sorted, true));
    proof {
        let every = candidates(scores@, excluded, scores@.len());
        law_ranking_is_best(ranked@, every, top_k as nat);
        lemma_candidate_groups(scores@, excluded, scores@.len());
        assert forall|i: int| 0 <= i < ranked@.len() implies (#[trigger] ranked@[i]).group
            < scores@.len() by {
            assert(every.contains(ranked@[i]));
        }
    }
    ranked
}

proof fn lemma_candidate_groups(scores: Seq<u32>, exclusion: Option<(Seq<u32>, u32)>, end: nat)
    requires
        end <= scores.len() <= usize::MAX,
    ensures
        forall|i: int|
            0 <= i < candidates(scores, exclusion, end).len() ==> (#[trigger] candidates(
                scores,
                exclusion,
                end,
            )[i]).group < end,
    decreases end,
{
    if end > 0 {
        lemma_candidate_groups(scores, exclusion, (end - 1) as nat);
        let earlier = candidates(scores, exclusion, (end - 1) as nat);
        let all = candidates(scores, exclusion, end);
        assert forall|i: int| 0 <= i < all.len() implies (#[trigger] all[i]).group < end by {
            if i < earlier.len() {
                assert(all[i] == earlier[i]);
            }
        }
    }
}

/// How many of the ranked scores, counted from the best, reach a cutoff.
pub open spec fn confident(ranked: Seq<Candidate>, cutoff: u32) -> nat
    decreases ranked.len(),
{
    if ranked.len() == 0 || !is_at_least(ranked[0].score, cutoff) {
        0
    } else {
        1 + confident(ranked.drop_first(), cutoff)
    }
}

/// How many ranked results are shown. `cutoff` is the least score that is trusted; `prominence`
/// is how far the best score stands out from the middle one, and how far it has to. Results that do
/// not stand out are only shown as far as a minimum is asked for.
pub open spec fn shown_results(
    ranked: Seq<Candidate>,
    cutoff: Option<u32>,
    prominence: Option<(u32, u32)>,
    min_results: nat,
    max_results: Option<nat>,
) -> nat {
    let total = ranked.len();
    let minimum = if min_results < total {
        min_results
    } else {
        total
    };
    let maximum = match max_results {
        Some(maximum) => if maximum < total {
            maximum
        } else {
            total
        },
        None => total,
    };
    let trusted = match cutoff {
        Some(cutoff) => confident(ranked, cutoff),
        None => total,
    };
    let prominent = match prominence {
        Some((gap, required)) => total < 4 || is_at_least(gap, required),
        None => true,
    };
    if total == 0 {
        0
    } else if !prominent {
        minimum
    } else if trusted > minimum {
        if trusted < maximum {
            trusted
        } else {
            maximum
        }
    } else if minimum < maximum {
        minimum
    } else {
        maximum
    }
}

fn count_confident(ranked: &Vec<Candidate>, cutoff: u32) -> (count: usize)
    ensures
        count == confident(ranked@, cutoff),
        count <= ranked@.len(),
{
    let mut count: usize = 0;
    assert(ranked@.skip(0) =~= ranked@);
    while count < ranked.len() && at_least(ranked[count].score, cutoff)
        invariant
            count <= ranked@.len(),
            confident(ranked@, cutoff) == count + confident(ranked@.skip(count as int), cutoff),
        decreases ranked@.len() - count,
    {
        assert(ranked@.skip(count as int)[0] == ranked@[count as int]);
        assert(ranked@.skip(count as int).drop_first() =~= ranked@.skip(count + 1));
        count = count + 1;
    }
    proof {
        if count < ranked@.len() {
            assert(ranked@.skip(count as int)[0] == ranked@[count as int]);
        }
    }
    count
}

fn smaller(left: usize, right: usize) -> (least: usize)
    ensures
        least == (if left < right {
            left
        } else {
            right
        }),
{
    if left < right {
        left
    } else {
        right
    }
}

/// Cuts ranked results down to those that are shown.
pub fn relevant_results(
    ranked: Vec<Candidate>,
    cutoff: Option<u32>,
    prominence: Option<(u32, u32)>,
    min_results: usize,
    max_results: Option<usize>,
) -> (shown: Vec<Candidate>)
    ensures
        shown@ == ranked@.take(
            shown_results(
                ranked@,
                cutoff,
                prominence,
                min_results as nat,
                match max_results {
                    Some(maximum) => Some(maximum as nat),
                    None => None,
                },
            ) as int,
        ),
{
    let total: usize = ranked.len();
    if total == 0 {
        assert(ranked@ =~= ranked@.take(0));
        return ranked;
    }
    let prominent = match prominence {
        Some((gap, required)) => total < 4 || at_least(gap, required),
        None => true,
    };
    let trusted: usize = match cutoff {
        Some(cutoff) => count_confident(&ranked, cutoff),
        None => total,
    };
    let minimum: usize = smaller(min_results, total);
    let maximum: usize = match max_results {
        Some(maximum) => smaller(maximum, total),
        None => total,
    };
    let wanted: usize = if trusted > minimum {
        trusted
    } else {
        minimum
    };
    let kept: usize = if prominent {
        smaller(wanted, maximum)
    } else {
        minimum
    };
    let ghost all = ranked@;
    let mut shown = ranked;
    shown.truncate(kept);
    assert(shown@ =~= all.take(kept as int));
    shown
}

/// What is wrong with a search request.
pub open spec fn request_fault(request: SearchRequest) -> Option<FailureView> {
    if text::is_blank(request.query@) {
        Some(plain_failure("query must not be empty"@))
    } else if request.top_k == 0 {
        Some(plain_failure("top-k must be positive"@))
    } else if !is_finite_nonnegative(request.negative_weight) {
        Some(plain_failure("invalid negative weight"@))
    } else if request.score_window matches Some(window) && !is_finite_nonnegative(window) {
        Some(plain_failure("invalid score window"@))
    } else if request.min_score_prominence matches Some(prominence) && !is_finite_nonnegative(
        prominence,
    ) {
        Some(plain_failure("invalid minimum score prominence"@))
    } else if request.max_results == Some(0usize) {
        Some(plain_failure("invalid maximum result count"@))
    } else {
        None
    }
}

fn finite_nonnegative(bits: u32) -> (b: bool)
    ensures
        b == is_finite_nonnegative(bits),
{
    bits < 0x7f80_0000 || bits == 0x8000_0000
}

/// Checks a search request.
pub fn check_request(request: &SearchRequest) -> (result: Result<(), Failure>)
    ensures
        match (result, request_fault(*request)) {
            (Ok(_), None) => true,
            (Err(failure), Some(fault)) => failure@ == fault,
            _ => false,
        },
{
    if text::blank(request.query.as_str()) {
        return Err(Failure::plain("query must not be empty"));
    }
    if request.top_k == 0 {
        return Err(Failure::plain("top-k must be positive"));
    }
    if !finite_nonnegative(request.negative_weight) {
        return Err(Failure::plain("invalid negative weight"));
    }
    if let Some(window) = request.score_window {
        if !finite_nonnegative(window) {
            return Err(Failure::plain("invalid score window"));
        }
    }
    if let Some(prominence) = request.min_score_prominence {
        if !finite_nonnegative(prominence) {
            return Err(Failure::plain("invalid minimum score prominence"));
        }
    }
    if let Some(maximum) = request.max_results {
        if maximum == 0 {
            return Err(Failure::plain("invalid maximum result count"));
        }
    }
    Ok(())
}

/// The negative query of a request, where it says something.
pub fn negative_query(request: &SearchRequest) -> (query: Option<String>)
    ensures
        text::optional(query) == match request.negative_query {
            Some(negative) => if text::is_blank(negative@) {
                None
            } else {
                Some(negative@)
            },
            None => None,
        },
{
    match &request.negative_query {
        Some(negative) => if text::blank(negative.as_str()) {
            None
        } else {
            Some(negative.clone())
        },
        None => None,
    }
}

/// How many results are ranked: as many as asked for, as far as there are items.
pub fn ranking_limit(request: &SearchRequest, items: usize) -> (limit: usize)
    ensures
        limit == (if request.top_k < items {
            request.top_k
        } else {
            items
        }),
{
    smaller(request.top_k, items)
}

/// The best score and the one in the middle, between which prominence is measured.
pub fn best_and_middle(ranked: &Vec<Candidate>) -> (scores: Option<(u32, u32)>)
    ensures
        scores is Some == (ranked@.len() > 0),
        scores matches Some((best, middle)) ==> best == ranked@[0].score && middle
            == ranked@[ranked@.len() as int / 2].score,
{
    if ranked.len() == 0 {
        return None;
    }
    Some((ranked[0].score, ranked[ranked.len() / 2].score))
}

/// The results that a search answers with: numbered from one, best first.
pub open spec fn match_views(ranked: Seq<Candidate>, groups: Seq<GroupView>) -> Seq<MatchView> {
    Seq::new(
        ranked.len(),
        |i: int|
            MatchView {
                rank: (i + 1) as usize,
                key: groups[ranked[i].group as int].key,
                score: ranked[i].score,
            },
    )
}

/// The values of results.
pub open spec fn matches_view(matches: Seq<Match>) -> Seq<MatchView> {
    matches.map_values(|found: Match| found@)
}

/// Numbers ranked groups and gives them their keys.
pub fn matches_of(ranked: &Vec<Candidate>, groups: &Vec<Group>) -> (matches: Vec<Match>)
    requires
        forall|i: int| 0 <= i < ranked@.len() ==> (#[trigger] ranked@[i]).group < groups@.len(),
    ensures
        matches_view(matches@) == match_views(ranked@, group_views(groups@)),
{
    let mut matches: Vec<Match> = Vec::new();
    let mut position: usize = 0;
    let ghost wanted = match_views(ranked@, group_views(groups@));
    while position < ranked.len()
        invariant
            position <= ranked@.len(),
            wanted == match_views(ranked@, group_views(groups@)),
            forall|i: int| 0 <= i < ranked@.len() ==> (#[trigger] ranked@[i]).group < groups@.len(),
            matches_view(matches@) == wanted.take(position as int),
        decreases ranked@.len() - position,
    {
        let candidate = ranked[position];
        let ghost before = matches@;
        matches.push(
            Match {
                rank: position + 1,
                key: groups[candidate.group].key.clone(),
                score: candidate.score,
            },
        );
        proof {
            assert(group_views(groups@)[candidate.group as int] == groups@[candidate.group as int]@);
            assert(matches@.last()@ == wanted[position as int]);
            assert(matches_view(matches@) =~= matches_view(before).push(matches@.last()@));
            assert(matches_view(matches@) =~= wanted.take(position + 1));
        }
        position = position + 1;
    }
    assert(wanted.take(position as int) =~= wanted);
    matches
}

/// Two rankings of the same candidates are the same: no two of them stand level.
pub proof fn law_ranking_is_unique(
    first: Seq<Candidate>,
    second: Seq<Candidate>,
    all: Seq<Candidate>,
    limit: nat,
)
    requires
        is_ranking(first, all, limit),
        is_ranking(second, all, limit),
    ensures
        first == second,
{
    let left = choose|sorted: Seq<Candidate>|
        {
            &&& #[trigger] is_sorted(sorted, true)
            &&& sorted.to_multiset() == all.to_multiset()
            &&& first == if limit < sorted.len() {
                sorted.take(limit as int)
            } else {
                sorted
            }
        };
    let right = choose|sorted: Seq<Candidate>|
        {
            &&& #[trigger] is_sorted(sorted, true)
            &&& sorted.to_multiset() == all.to_multiset()
            &&& second == if limit < sorted.len() {
                sorted.take(limit as int)
            } else {
                sorted
            }
        };
    let level = |a: Candidate, b: Candidate| !b.is_before(a);
    assert(vstd::relations::total_ordering(level));
    assert(vstd::relations::sorted_by(left, level)) by {
        assert forall|i: int, j: int| 0 <= i < j < left.len() implies #[trigger] level(
            left[i],
            left[j],
        ) by {
            assert(may_lead(left[i], left[j], true));
        }
    }
    assert(vstd::relations::sorted_by(right, level)) by {
        assert forall|i: int, j: int| 0 <= i < j < right.len() implies #[trigger] level(
            right[i],
            right[j],
        ) by {
            assert(may_lead(right[i], right[j], true));
        }
    }
    lemma_sorted_unique(left, right, level);
}

/// A ranking holds as many candidates as asked for, as far as there are any; each of its scores is
/// at least every score behind it and every score that was left out.
pub proof fn law_ranking_is_best(ranked: Seq<Candidate>, all: Seq<Candidate>, limit: nat)
    requires
        is_ranking(ranked, all, limit),
    ensures
        ranked.len() == if limit < all.len() {
            limit
        } else {
            all.len()
        },
        forall|i: int, j: int|
            0 <= i < j < ranked.len() ==> total_order_key((#[trigger] ranked[i]).score)
                >= total_order_key((#[trigger] ranked[j]).score),
        forall|i: int| 0 <= i < ranked.len() ==> all.contains(#[trigger] ranked[i]),
        forall|i: int, j: int|
            0 <= i < ranked.len() && 0 <= j < all.len() && !ranked.contains(#[trigger] all[j])
                ==> total_order_key((#[trigger] ranked[i]).score) >= total_order_key(all[j].score),
{
    let sorted = choose|sorted: Seq<Candidate>|
        {
            &&& #[trigger] is_sorted(sorted, true)
            &&& sorted.to_multiset() == all.to_multiset()
            &&& ranked == if limit < sorted.len() {
                sorted.take(limit as int)
            } else {
                sorted
            }
        };
    broadcast use group_to_multiset_ensures;

    sorted.to_multiset_ensures();
    all.to_multiset_ensures();
    assert(sorted.len() == all.len());
    assert forall|i: int, j: int| 0 <= i < j < ranked.len() implies total_order_key(
        (#[trigger] ranked[i]).score,
    ) >= total_order_key((#[trigger] ranked[j]).score) by {
        assert(may_lead(sorted[i], sorted[j], true));
    }
    assert forall|i: int| 0 <= i < ranked.len() implies all.contains(#[trigger] ranked[i]) by {
        assert(sorted.contains(sorted[i]));
        assert(sorted.to_multiset().count(sorted[i]) > 0);
    }
    assert forall|i: int, j: int|
        0 <= i < ranked.len() && 0 <= j < all.len() && !ranked.contains(
            #[trigger] all[j],
        ) implies total_order_key((#[trigger] ranked[i]).score) >= total_order_key(
        all[j].score,
    ) by {
        assert(all.contains(all[j]));
        assert(all.to_multiset().count(all[j]) > 0);
        assert(sorted.contains(all[j]));
        let k = choose|k: int| 0 <= k < sorted.len() && sorted[k] == all[j];
        if k < ranked.len() {
            assert(ranked[k] == all[j]);
        } else {
            assert(may_lead(sorted[i], sorted[k], true));
        }
    }
}

/// No more results are shown than were ranked or asked for, and no fewer than the minimum asked
/// for, as far as that many were ranked and allowed.
pub proof fn law_shown_results(
    ranked: Seq<Candidate>,
    cutoff: Option<u32>,
    prominence: Option<(u32, u32)>,
    min_results: nat,
    max_results: Option<nat>,
)
    ensures
        ({
            let shown = shown_results(ranked, cutoff, prominence, min_results, max_results);
            &&& shown <= ranked.len()
            &&& prominence is None ==> (max_results matches Some(maximum) ==> shown <= maximum)
            &&& shown < min_results ==> shown == ranked.len() || max_results == Some(shown)
        }),
{
    if let Some(cutoff) = cutoff {
        lemma_confident_bound(ranked, cutoff);
    }
}

proof fn lemma_confident_bound(ranked: Seq<Candidate>, cutoff: u32)
    ensures
        confident(ranked, cutoff) <= ranked.len(),
    decreases ranked.len(),
{
    if ranked.len() > 0 {
        lemma_confident_bound(ranked.drop_first(), cutoff);
    }
}

} // verus!
