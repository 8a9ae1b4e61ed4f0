//! What is kept of a sequence, and where it stood.

use vstd::prelude::*;

verus! {

/// Whether `kept` are the elements at positions that rise, which are those of all elements that are
/// wanted.
pub open spec fn is_selection<A>(
    all: Seq<A>,
    wanted: spec_fn(A) -> bool,
    kept: Seq<A>,
    positions: Seq<int>,
) -> bool {
    &&& positions.len() == kept.len()
    &&& forall|k: int|
        0 <= k < positions.len() ==> 0 <= #[trigger] positions[k] < all.len() && all[positions[k]]
            == kept[k]
    &&& forall|k: int, l: int|
        0 <= k < l < positions.len() ==> #[trigger] positions[k] < #[trigger] positions[l]
    &&& forall|i: int|
        0 <= i < all.len() ==> (wanted(#[trigger] all[i]) <==> positions.contains(i))
}

/// A filter keeps the elements that are wanted, in their order.
pub proof fn lemma_filter<A>(all: Seq<A>, wanted: spec_fn(A) -> bool) -> (positions: Seq<int>)
    ensures
        is_selection(all, wanted, all.filter(wanted), positions),
    decreases all.len(),
{
    reveal(Seq::filter);
    if all.len() == 0 {
        assert(all.filter(wanted).len() == 0);
        Seq::empty()
    } else {
        let rest = all.drop_last();
        let earlier = lemma_filter(rest, wanted);
        let last = all.len() - 1;
        let positions = if wanted(all.last()) {
            earlier.push(last)
        } else {
            earlier
        };
        assert forall|i: int| 0 <= i < all.len() implies (wanted(#[trigger] all[i])
            <==> positions.contains(i)) by {
            if i < last {
                assert(rest[i] == all[i]);
                if earlier.contains(i) {
                    let k = choose|k: int| 0 <= k < earlier.len() && earlier[k] == i;
                    assert(positions[k] == i);
                }
                if positions.contains(i) {
                    let k = choose|k: int| 0 <= k < positions.len() && positions[k] == i;
                    assert(earlier[k] == i);
                }
            } else {
                if wanted(all.last()) {
                    assert(positions[positions.len() - 1] == i);
                }
                if positions.contains(i) && !wanted(all.last()) {
                    let k = choose|k: int| 0 <= k < earlier.len() && earlier[k] == i;
                    assert(0 <= earlier[k] < rest.len());
                }
            }
        }
        assert forall|k: int| 0 <= k < positions.len() implies 0 <= #[trigger] positions[k]
            < all.len() && all[positions[k]] == all.filter(wanted)[k] by {
            if k < earlier.len() {
                assert(positions[k] == earlier[k]);
                assert(all[earlier[k]] == rest[earlier[k]]);
            }
        }
        positions
    }
}

/// Of a filter that keeps one element, that element is the only one that is wanted.
pub proof fn lemma_only<A>(all: Seq<A>, wanted: spec_fn(A) -> bool) -> (at: int)
    ensures
        all.filter(wanted).len() == 0 ==> forall|i: int| 0 <= i < all.len() ==> !wanted(#[trigger] all[i]),
        all.filter(wanted).len() > 0 ==> 0 <= at < all.len() && wanted(all[at]) && all[at]
            == all.filter(wanted)[0],
        all.filter(wanted).len() == 1 ==> forall|i: int|
            0 <= i < all.len() && wanted(#[trigger] all[i]) ==> i == at,
        all.filter(wanted).len() > 1 ==> exists|i: int|
            0 <= i < all.len() && wanted(#[trigger] all[i]) && i != at,
{
    let kept = all.filter(wanted);
    let positions = lemma_filter(all, wanted);
    assert forall|i: int| 0 <= i < all.len() && wanted(#[trigger] all[i]) implies kept.len() > 0 && (
    kept.len() == 1 ==> i == positions[0]) by {
        let k = choose|k: int| 0 <= k < positions.len() && positions[k] == i;
        assert(positions[k] == i);
    }
    if kept.len() > 0 {
        assert(positions.contains(positions[0]));
        if kept.len() > 1 {
            assert(positions[0] < positions[1]);
            assert(positions.contains(positions[1]));
            assert(wanted(all[positions[1]]));
        }
        positions[0]
    } else {
        0
    }
}

} // verus!
