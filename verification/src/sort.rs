//! Sorting by a strict order.

use vstd::prelude::*;
use vstd::seq_lib::*;

verus! {

/// Values with a strict order, in which two values may stand level.
pub trait Ordered: Sized {
    /// Whether one value comes before another.
    spec fn is_before(self, other: Self) -> bool;

    /// No two values come before each other.
    proof fn before_is_asymmetric(self, other: Self)
        ensures
            !(self.is_before(other) && other.is_before(self)),
    ;

    /// If a second value does not come before the first, nor a third before the second, then the
    /// third does not come before the first.
    proof fn level_is_transitive(self, middle: Self, other: Self)
        requires
            !middle.is_before(self),
            !other.is_before(middle),
        ensures
            !other.is_before(self),
    ;

    /// Tells whether one value comes before another.
    fn before(&self, other: &Self) -> (before: bool)
        ensures
            before == self.is_before(*other),
    ;
}

/// Whether a value may stand in front of another, in ascending or in descending order.
pub open spec fn may_lead<T: Ordered>(first: T, second: T, ascending: bool) -> bool {
    if ascending {
        !second.is_before(first)
    } else {
        !first.is_before(second)
    }
}

/// Whether every value may stand in front of those behind it.
pub open spec fn is_sorted<T: Ordered>(values: Seq<T>, ascending: bool) -> bool {
    forall|i: int, j: int|
        0 <= i < j < values.len() ==> may_lead(
            #[trigger] values[i],
            #[trigger] values[j],
            ascending,
        )
}

proof fn lemma_may_lead_transitive<T: Ordered>(first: T, second: T, third: T, ascending: bool)
    requires
        may_lead(first, second, ascending),
        may_lead(second, third, ascending),
    ensures
        may_lead(first, third, ascending),
{
    if ascending {
        first.level_is_transitive(second, third);
    } else {
        third.level_is_transitive(second, first);
    }
}

/// Whether a value may stand in front of all others.
spec fn leads_all<T: Ordered>(first: T, others: Seq<T>, ascending: bool) -> bool {
    forall|j: int| 0 <= j < others.len() ==> may_lead(first, #[trigger] others[j], ascending)
}

/// Moves the last of `source` behind the merged values, where it may lead all that are left.
proof fn lemma_merge_step<T: Ordered>(
    merged: Seq<T>,
    source: Seq<T>,
    other: Seq<T>,
    ascending: bool,
)
    requires
        source.len() > 0,
        is_sorted(merged, ascending),
        is_sorted(source, !ascending),
        is_sorted(other, !ascending),
        forall|i: int| 0 <= i < merged.len() ==> leads_all(#[trigger] merged[i], source, ascending),
        forall|i: int| 0 <= i < merged.len() ==> leads_all(#[trigger] merged[i], other, ascending),
        other.len() > 0 ==> may_lead(source.last(), other.last(), ascending),
    ensures
        is_sorted(merged.push(source.last()), ascending),
        is_sorted(source.drop_last(), !ascending),
        forall|i: int|
            0 <= i < merged.push(source.last()).len() ==> leads_all(
                #[trigger] merged.push(source.last())[i],
                source.drop_last(),
                ascending,
            ),
        forall|i: int|
            0 <= i < merged.push(source.last()).len() ==> leads_all(
                #[trigger] merged.push(source.last())[i],
                other,
                ascending,
            ),
        merged.push(source.last()).to_multiset().add(source.drop_last().to_multiset())
            == merged.to_multiset().add(source.to_multiset()),
{
    let last = source.last();
    let longer = merged.push(last);
    let shorter = source.drop_last();
    assert forall|i: int, j: int| 0 <= i < j < longer.len() implies may_lead(
        #[trigger] longer[i],
        #[trigger] longer[j],
        ascending,
    ) by {
        if j == merged.len() {
            assert(leads_all(merged[i], source, ascending));
            assert(may_lead(merged[i], source[source.len() - 1], ascending));
        }
    }
    assert forall|i: int| 0 <= i < longer.len() implies leads_all(
        #[trigger] longer[i],
        shorter,
        ascending,
    ) by {
        assert forall|j: int| 0 <= j < shorter.len() implies may_lead(
            longer[i],
            #[trigger] shorter[j],
            ascending,
        ) by {
            assert(shorter[j] == source[j]);
            if i == merged.len() {
                assert(may_lead(source[j], source[source.len() - 1], !ascending));
            } else {
                assert(leads_all(merged[i], source, ascending));
            }
        }
    }
    assert forall|i: int| 0 <= i < longer.len() implies leads_all(
        #[trigger] longer[i],
        other,
        ascending,
    ) by {
        assert forall|j: int| 0 <= j < other.len() implies may_lead(
            longer[i],
            #[trigger] other[j],
            ascending,
        ) by {
            if i == merged.len() {
                if j < other.len() - 1 {
                    assert(may_lead(other[j], other[other.len() - 1], !ascending));
                    lemma_may_lead_transitive(last, other.last(), other[j], ascending);
                }
            } else {
                assert(leads_all(merged[i], other, ascending));
            }
        }
    }
    broadcast use group_to_multiset_ensures;

    assert(shorter.push(last) =~= source);
    assert(longer.to_multiset().add(shorter.to_multiset()) =~= merged.to_multiset().add(
        source.to_multiset(),
    ));
}

fn merge<T: Ordered>(left: Vec<T>, right: Vec<T>, ascending: bool) -> (merged: Vec<T>)
    requires
        is_sorted(left@, !ascending),
        is_sorted(right@, !ascending),
    ensures
        is_sorted(merged@, ascending),
        merged@.to_multiset() == left@.to_multiset().add(right@.to_multiset()),
{
    let ghost all = left@.to_multiset().add(right@.to_multiset());
    let mut left = left;
    let mut right = right;
    let mut merged: Vec<T> = Vec::new();
    proof {
        broadcast use group_to_multiset_ensures;

        assert(merged@.to_multiset().add(left@.to_multiset()).add(right@.to_multiset()) =~= all);
    }
    while left.len() > 0 || right.len() > 0
        invariant
            is_sorted(merged@, ascending),
            is_sorted(left@, !ascending),
            is_sorted(right@, !ascending),
            forall|i: int|
                0 <= i < merged@.len() ==> leads_all(#[trigger] merged@[i], left@, ascending),
            forall|i: int|
                0 <= i < merged@.len() ==> leads_all(#[trigger] merged@[i], right@, ascending),
            merged@.to_multiset().add(left@.to_multiset()).add(right@.to_multiset()) == all,
        decreases left@.len() + right@.len(),
    {
        let take_left = if right.len() == 0 {
            true
        } else if left.len() == 0 {
            false
        } else {
            let first = &left[left.len() - 1];
            let second = &right[right.len() - 1];
            if ascending {
                !second.before(first)
            } else {
                !first.before(second)
            }
        };
        let ghost before = merged@;
        let ghost left_before = left@;
        let ghost right_before = right@;
        if take_left {
            proof {
                lemma_merge_step(merged@, left@, right@, ascending);
            }
            if let Some(value) = left.pop() {
                merged.push(value);
            }
            assert(left@ =~= left_before.drop_last());
            assert(merged@ =~= before.push(left_before.last()));
        } else {
            proof {
                if left@.len() > 0 {
                    left@.last().before_is_asymmetric(right@.last());
                }
                lemma_merge_step(merged@, right@, left@, ascending);
            }
            if let Some(value) = right.pop() {
                merged.push(value);
            }
            assert(right@ =~= right_before.drop_last());
            assert(merged@ =~= before.push(right_before.last()));
            assert(merged@.to_multiset().add(left@.to_multiset()).add(right@.to_multiset())
                =~= merged@.to_multiset().add(right@.to_multiset()).add(left@.to_multiset()));
            assert(before.to_multiset().add(left@.to_multiset()).add(right_before.to_multiset())
                =~= before.to_multiset().add(right_before.to_multiset()).add(left@.to_multiset()));
        }
    }
    proof {
        broadcast use group_to_multiset_ensures;

        assert(left@ =~= Seq::<T>::empty());
        assert(right@ =~= Seq::<T>::empty());
        assert(merged@.to_multiset() =~= all);
    }
    merged
}

fn merge_sort<T: Ordered>(values: Vec<T>, ascending: bool) -> (sorted: Vec<T>)
    ensures
        is_sorted(sorted@, ascending),
        sorted@.to_multiset() == values@.to_multiset(),
    decreases values@.len(),
{
    if values.len() < 2 {
        return values;
    }
    let ghost all = values@;
    let mut front = values;
    let middle: usize = front.len() / 2;
    let back = front.split_off(middle);
    proof {
        assert(all =~= front@ + back@);
        lemma_multiset_commutative(front@, back@);
    }
    merge(merge_sort(front, !ascending), merge_sort(back, !ascending), ascending)
}

/// Sorts values: the same values, none in front of one that comes before it.
pub fn sort<T: Ordered>(values: Vec<T>) -> (sorted: Vec<T>)
    ensures
        is_sorted(sorted@, true),
        sorted@.to_multiset() == values@.to_multiset(),
        sorted@.len() == values@.len(),
{
    let sorted = merge_sort(values, true);
    proof {
        values@.to_multiset_ensures();
        sorted@.to_multiset_ensures();
    }
    sorted
}

/// Sequences with the same values have the same images of them.
pub proof fn lemma_same_images<A, B>(left: Seq<A>, right: Seq<A>, image: spec_fn(A) -> B)
    requires
        left.to_multiset() == right.to_multiset(),
    ensures
        left.map_values(image).to_multiset() == right.map_values(image).to_multiset(),
    decreases left.len(),
{
    broadcast use group_to_multiset_ensures;

    left.to_multiset_ensures();
    right.to_multiset_ensures();
    assert(left.len() == right.len());
    if left.len() == 0 {
        assert(left.map_values(image) =~= right.map_values(image));
    } else {
        let last = left.last();
        assert(left.contains(last));
        assert(left.to_multiset().count(last) > 0);
        assert(right.contains(last));
        let k = choose|k: int| 0 <= k < right.len() && right[k] == last;
        let shorter = left.drop_last();
        let others = right.remove(k);
        assert(shorter =~= left.remove(left.len() - 1));
        assert(shorter.to_multiset() =~= left.to_multiset().remove(last));
        assert(others.to_multiset() =~= right.to_multiset().remove(last));
        lemma_same_images(shorter, others, image);
        let images = right.map_values(image);
        assert(left.map_values(image) =~= shorter.map_values(image).push(image(last)));
        assert(images.remove(k) =~= others.map_values(image));
        assert(images.remove(k).to_multiset() =~= images.to_multiset().remove(images[k]));
        assert(images.contains(images[k]));
        assert(images.to_multiset().count(images[k]) > 0);
        assert(left.map_values(image).to_multiset() =~= images.to_multiset());
    }
}

} // verus!
