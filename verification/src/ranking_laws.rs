//! What a search comes to: which items are ranked, in which order, and how many of them are shown.

use vstd::prelude::*;
use vstd::string::*;

use crate::failure::Failure;
use crate::ranking::{
    at_least, best_and_middle, candidates, check_request, confident, exclusion_view,
    law_ranking_is_best, matches_of, matches_view, negative_query, rank_excluding, ranking_limit,
    relevant_results, Candidate,
};
use crate::search::{Match, SearchRequest};
use crate::semantic_index::{group_views, Group};
use crate::sort::{is_sorted, may_lead};
use crate::text;

verus! {

/// Whether a bit pattern is that of a number: its exponent is not all ones, or its fraction is zero.
pub open spec fn is_number(bits: u32) -> bool {
    bits % 0x8000_0000 <= 0x7f80_0000
}

/// The size of a number, without its sign; larger numbers have larger bit patterns.
pub open spec fn magnitude(bits: u32) -> int {
    (bits % 0x8000_0000) as int
}

/// Whether a number has the sign of those below zero.
pub open spec fn is_negative(bits: u32) -> bool {
    bits >= 0x8000_0000
}

/// Whether a number reaches another: what is no number reaches nothing and is not reached, the two
/// zeros reach each other, what is below zero reaches nothing above it, and of numbers with one sign
/// their size decides.
pub open spec fn reaches(left: u32, right: u32) -> bool {
    is_number(left) && is_number(right) && if magnitude(left) == 0 && magnitude(right) == 0 {
        true
    } else if is_negative(left) != is_negative(right) {
        is_negative(right)
    } else if is_negative(left) {
        magnitude(left) <= magnitude(right)
    } else {
        magnitude(left) >= magnitude(right)
    }
}

/// Whether one score stands above another in the ranking: those with a negative sign stand below all
/// others, the larger of them lower.
pub open spec fn stands_above(left: u32, right: u32) -> bool {
    if is_negative(left) != is_negative(right) {
        is_negative(right)
    } else if is_negative(left) {
        magnitude(left) < magnitude(right)
    } else {
        magnitude(left) > magnitude(right)
    }
}

/// Numbers compare by their signs and sizes.
pub proof fn law_numbers_compare(left: u32, right: u32, b: bool)
    requires
        call_ensures(at_least, (left, right), b),
    ensures
        b == reaches(left, right),
{
}

/// Whether a group is left out: its score for the negative query reaches the threshold.
pub open spec fn is_unwanted(exclusion: Option<(&[u32], u32)>, group: int) -> bool {
    exclusion matches Some((negative, threshold)) && reaches(negative@[group], threshold)
}

proof fn lemma_candidates(scores: Seq<u32>, exclusion: Option<(&[u32], u32)>, end: nat)
    requires
        end <= scores.len() <= usize::MAX,
    ensures
        ({
            let all = candidates(scores, exclusion_view(exclusion), end);
            &&& forall|i: int|
                0 <= i < all.len() ==> (#[trigger] all[i]).group < end && all[i].score
                    == scores[all[i].group as int] && !is_unwanted(exclusion, all[i].group as int)
            &&& forall|i: int, j: int|
                0 <= i < j < all.len() ==> (#[trigger] all[i]).group < (#[trigger] all[j]).group
            &&& forall|group: int|
                0 <= group < end && !#[trigger] is_unwanted(exclusion, group) ==> all.contains(
                    Candidate { group: group as usize, score: scores[group] },
                )
        }),
    decreases end,
{
    if end > 0 {
        lemma_candidates(scores, exclusion, (end - 1) as nat);
        let earlier = candidates(scores, exclusion_view(exclusion), (end - 1) as nat);
        let all = candidates(scores, exclusion_view(exclusion), end);
        let last = end - 1;
        assert forall|group: int|
            0 <= group < end && !#[trigger] is_unwanted(exclusion, group) implies all.contains(
            Candidate { group: group as usize, score: scores[group] },
        ) by {
            let own = Candidate { group: group as usize, score: scores[group] };
            if group < last {
                let k = choose|k: int| 0 <= k < earlier.len() && earlier[k] == own;
                assert(all[k] == own);
            } else {
                assert(all.last() == own);
            }
        }
        assert forall|i: int| 0 <= i < all.len() implies (#[trigger] all[i]).group < end
            && all[i].score == scores[all[i].group as int] && !is_unwanted(
            exclusion,
            all[i].group as int,
        ) by {
            if i < earlier.len() {
                assert(all[i] == earlier[i]);
            }
        }
        assert forall|i: int, j: int| 0 <= i < j < all.len() implies (#[trigger] all[i]).group < (
        #[trigger] all[j]).group by {
            assert(all[i] == earlier[i]);
            if j < earlier.len() {
                assert(all[j] == earlier[j]);
            }
        }
    }
}

/// A search ranks each group at most once and with its own score, best first, the earlier group
/// before a later one with the same score. A group is left out if and only if its score for the
/// negative query reaches the threshold, whatever its own score; of the others only those are missing
/// for which there is no room, and every one that is ranked stands before them.
pub proof fn law_unwanted_groups_are_left_out(
    scores: &[u32],
    top_k: usize,
    exclusion: Option<(&[u32], u32)>,
    ranked: Vec<Candidate>,
)
    requires
        call_ensures(rank_excluding, (scores, top_k, exclusion), ranked),
        exclusion matches Some((negative, _)) ==> negative@.len() == scores@.len(),
        scores@.len() <= usize::MAX,
    ensures
        ranked@.len() <= top_k,
        forall|i: int|
            0 <= i < ranked@.len() ==> (#[trigger] ranked@[i]).group < scores@.len()
                && ranked@[i].score == scores@[ranked@[i].group as int] && !is_unwanted(
                exclusion,
                ranked@[i].group as int,
            ),
        forall|i: int, j: int|
            0 <= i < j < ranked@.len() ==> stands_above(
                (#[trigger] ranked@[i]).score,
                (#[trigger] ranked@[j]).score,
            ) || (ranked@[i].score == ranked@[j].score && ranked@[i].group < ranked@[j].group),
        forall|group: int|
            0 <= group < scores@.len() && !#[trigger] is_unwanted(exclusion, group) ==> {
                ||| exists|i: int| 0 <= i < ranked@.len() && (#[trigger] ranked@[i]).group == group
                ||| ranked@.len() == top_k && forall|i: int|
                    0 <= i < ranked@.len() ==> stands_above(
                        (#[trigger] ranked@[i]).score,
                        scores@[group],
                    ) || (ranked@[i].score == scores@[group] && ranked@[i].group < group)
            },
{
    let all = candidates(scores@, exclusion_view(exclusion), scores@.len());
    let ranking = ranked@;
    lemma_candidates(scores@, exclusion, scores@.len());
    law_ranking_is_best(ranking, all, top_k as nat);
    let sorted = choose|sorted: Seq<Candidate>|
        {
            &&& #[trigger] is_sorted(sorted, true)
            &&& sorted.to_multiset() == all.to_multiset()
            &&& ranking == if top_k < sorted.len() {
                sorted.take(top_k as int)
            } else {
                sorted
            }
        };
    broadcast use vstd::seq_lib::group_to_multiset_ensures;

    sorted.to_multiset_ensures();
    all.to_multiset_ensures();
    assert(all.no_duplicates()) by {
        assert forall|i: int, j: int| 0 <= i < all.len() && 0 <= j < all.len() && i != j implies all[i]
            != all[j] by {
            if i < j {
                assert(all[i].group < all[j].group);
            } else {
                assert(all[j].group < all[i].group);
            }
        }
    }
    all.lemma_multiset_has_no_duplicates();
    sorted.lemma_multiset_has_no_duplicates_conv();
    assert forall|i: int, j: int| 0 <= i < j < ranking.len() implies stands_above(
        (#[trigger] ranking[i]).score,
        (#[trigger] ranking[j]).score,
    ) || (ranking[i].score == ranking[j].score && ranking[i].group < ranking[j].group) by {
        assert(may_lead(sorted[i], sorted[j], true));
        assert(all.contains(ranking[i]) && all.contains(ranking[j]));
        assert(sorted[i] != sorted[j]);
    }
    assert forall|group: int|
        0 <= group < scores@.len() && !#[trigger] is_unwanted(exclusion, group) implies ({
        ||| exists|i: int| 0 <= i < ranking.len() && (#[trigger] ranking[i]).group == group
        ||| ranking.len() == top_k && forall|i: int|
            0 <= i < ranking.len() ==> stands_above((#[trigger] ranking[i]).score, scores@[group])
                || (ranking[i].score == scores@[group] && ranking[i].group < group)
    }) by {
        let own = Candidate { group: group as usize, score: scores@[group] };
        assert(all.contains(own));
        assert(all.to_multiset().count(own) > 0);
        assert(sorted.contains(own));
        let k = choose|k: int| 0 <= k < sorted.len() && sorted[k] == own;
        if k < ranking.len() {
            assert(ranking[k].group == group);
        } else {
            assert forall|i: int| 0 <= i < ranking.len() implies stands_above(
                (#[trigger] ranking[i]).score,
                scores@[group],
            ) || (ranking[i].score == scores@[group] && ranking[i].group < group) by {
                assert(may_lead(sorted[i], sorted[k], true));
                assert(sorted[i] != sorted[k]);
            }
        }
    }
}

proof fn lemma_confident(ranked: Seq<Candidate>, cutoff: u32)
    ensures
        confident(ranked, cutoff) <= ranked.len(),
        forall|i: int|
            0 <= i < confident(ranked, cutoff) ==> reaches((#[trigger] ranked[i]).score, cutoff),
        confident(ranked, cutoff) < ranked.len() ==> !reaches(
            ranked[confident(ranked, cutoff) as int].score,
            cutoff,
        ),
    decreases ranked.len(),
{
    if ranked.len() > 0 && reaches(ranked[0].score, cutoff) {
        let rest = ranked.drop_first();
        lemma_confident(rest, cutoff);
        assert forall|i: int| 0 <= i < confident(ranked, cutoff) implies reaches(
            (#[trigger] ranked[i]).score,
            cutoff,
        ) by {
            if i > 0 {
                assert(rest[i - 1] == ranked[i]);
            }
        }
        if confident(ranked, cutoff) < ranked.len() {
            assert(rest[confident(rest, cutoff) as int] == ranked[confident(
                ranked,
                cutoff,
            ) as int]);
        }
    }
}

/// The results that are shown are the first of the ranked ones, each as it was. Where four or more
/// are ranked and the best does not stand out as it has to, as many are shown as are asked for at
/// least. Otherwise no more are shown than allowed; beyond the number that is asked for at least,
/// every one that is shown reaches the cutoff; and where fewer are shown than could be, no fewer are
/// shown than are asked for, and if more are, the next one does not reach the cutoff.
pub proof fn law_shown_results_are_relevant(
    ranked: Vec<Candidate>,
    cutoff: Option<u32>,
    prominence: Option<(u32, u32)>,
    min_results: usize,
    max_results: Option<usize>,
    shown: Vec<Candidate>,
)
    requires
        call_ensures(
            relevant_results,
            (ranked, cutoff, prominence, min_results, max_results),
            shown,
        ),
    ensures
        shown@.len() <= ranked@.len(),
        forall|i: int| 0 <= i < shown@.len() ==> #[trigger] shown@[i] == ranked@[i],
        ({
            let dull = ranked@.len() >= 4 && (prominence matches Some((gap, required)) && !reaches(
                gap,
                required,
            ));
            if dull {
                shown@.len() == min_results || (shown@.len() == ranked@.len() && ranked@.len()
                    < min_results)
            } else {
                &&& max_results matches Some(maximum) ==> shown@.len() <= maximum
                &&& cutoff matches Some(cutoff) ==> forall|i: int|
                    min_results <= i < shown@.len() ==> reaches(
                        (#[trigger] shown@[i]).score,
                        cutoff,
                    )
                &&& shown@.len() < ranked@.len() && (max_results matches Some(maximum) ==> maximum
                    != shown@.len()) ==> {
                    &&& shown@.len() >= min_results
                    &&& cutoff matches Some(cutoff) && (shown@.len() == min_results || !reaches(
                        ranked@[shown@.len() as int].score,
                        cutoff,
                    ))
                }
            }
        }),
{
    if let Some(cutoff) = cutoff {
        lemma_confident(ranked@, cutoff);
    }
}

/// Whether a text has a character that is not white space.
pub open spec fn says_something(text: Seq<char>) -> bool {
    exists|i: int| 0 <= i < text.len() && !text::is_whitespace(#[trigger] text[i])
}

/// Whether a bit pattern is that of a finite number that is not below zero.
pub open spec fn is_amount(bits: u32) -> bool {
    magnitude(bits) < 0x7f80_0000 && (is_negative(bits) ==> magnitude(bits) == 0)
}

/// A request is accepted if and only if its query says something, it asks for results, and its
/// weight, window, prominence and maximum are such as can be.
pub proof fn law_accepted_requests(request: &SearchRequest, result: Result<(), Failure>)
    requires
        call_ensures(check_request, (request,), result),
    ensures
        result is Ok <==> {
            &&& says_something(request.query@)
            &&& request.top_k > 0
            &&& is_amount(request.negative_weight)
            &&& request.score_window matches Some(window) ==> is_amount(window)
            &&& request.min_score_prominence matches Some(prominence) ==> is_amount(prominence)
            &&& request.max_results matches Some(maximum) ==> maximum > 0
        },
        result matches Err(failure) ==> (!says_something(request.query@) <==> failure.message@
            == "query must not be empty"@),
{
    reveal_strlit("query must not be empty");
    reveal_strlit("top-k must be positive");
    reveal_strlit("invalid negative weight");
    reveal_strlit("invalid score window");
    reveal_strlit("invalid minimum score prominence");
    reveal_strlit("invalid maximum result count");
    assert("query must not be empty"@[0] == 'q');
    assert("top-k must be positive"@[0] == 't');
    assert("invalid negative weight"@[0] == 'i');
    assert("invalid score window"@[0] == 'i');
    assert("invalid minimum score prominence"@[0] == 'i');
    assert("invalid maximum result count"@[0] == 'i');
    if text::is_blank(request.query@) {
        assert(!says_something(request.query@));
    } else {
        assert(says_something(request.query@));
    }
}

/// A negative query counts if and only if it says something, and as it stands.
pub proof fn law_negative_query_counts(request: &SearchRequest, query: Option<String>)
    requires
        call_ensures(negative_query, (request,), query),
    ensures
        query matches Some(query) ==> (request.negative_query matches Some(negative) && query@
            == negative@ && says_something(negative@)),
        query is None ==> (request.negative_query matches Some(negative) ==> !says_something(
            negative@,
        )),
{
    if let Some(negative) = request.negative_query {
        if text::is_blank(negative@) {
            assert(!says_something(negative@));
        } else {
            assert(says_something(negative@));
        }
    }
}

/// As many results are ranked as are asked for or as there are, whichever is less; prominence is
/// measured from the best of them to the one that has as many before it as behind it, or one more.
pub proof fn law_ranking_bounds(
    request: &SearchRequest,
    items: usize,
    limit: usize,
    ranked: &Vec<Candidate>,
    scores: Option<(u32, u32)>,
)
    requires
        call_ensures(ranking_limit, (request, items), limit),
        call_ensures(best_and_middle, (ranked,), scores),
    ensures
        limit <= request.top_k && limit <= items && (limit == request.top_k || limit == items),
        ranked@.len() == 0 <==> scores is None,
        scores matches Some((best, middle)) ==> ranked@[0].score == best && exists|i: int|
            0 <= i < ranked@.len() && (#[trigger] ranked@[i]).score == middle && (i
                == ranked@.len() - 1 - i || i == ranked@.len() - i),
{
    if ranked@.len() > 0 {
        let middle = ranked@.len() as int / 2;
        assert(ranked@[middle].score == ranked@[middle].score);
    }
}

/// Each result has the key of its group, its score, and a number that counts from one.
pub proof fn law_matches_name_their_groups(
    ranked: &Vec<Candidate>,
    groups: &Vec<Group>,
    matches: Vec<Match>,
)
    requires
        call_ensures(matches_of, (ranked, groups), matches),
        forall|i: int| 0 <= i < ranked@.len() ==> (#[trigger] ranked@[i]).group < groups@.len(),
        ranked@.len() <= usize::MAX,
    ensures
        matches@.len() == ranked@.len(),
        forall|i: int|
            0 <= i < ranked@.len() ==> (#[trigger] matches@[i]).rank == i + 1 && matches@[i].key@
                == groups@[ranked@[i].group as int].key@ && matches@[i].score == ranked@[i].score,
{
    let views = matches_view(matches@);
    assert(views.len() == matches@.len());
    assert forall|i: int| 0 <= i < ranked@.len() implies (#[trigger] matches@[i]).rank == i + 1
        && matches@[i].key@ == groups@[ranked@[i].group as int].key@ && matches@[i].score
        == ranked@[i].score by {
        assert(views[i] == matches@[i]@);
        assert(ranked@[i].group < groups@.len());
        assert(group_views(groups@)[ranked@[i].group as int] == groups@[ranked@[i].group as int]@);
    }
}

} // verus!
