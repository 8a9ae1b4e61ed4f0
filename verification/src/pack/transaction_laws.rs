//! What is done about unfinished changes to a model directory.

use vstd::prelude::*;
use vstd::string::*;

use crate::failure::Failure;
use crate::names::text_views;
use crate::pack::change::{is_published, Change};
use crate::pack::removal::{RemovalStep, StagedRemoval};
use crate::pack::state::{entry_views, PackState};
use crate::pack::transaction::{
    check_removed_component, cleanup_action, left_behind, recover_removal,
    recover_removal_for_repair, referenced, stale_names, transaction_named, work_named,
    CleanupAction, RemovalTraces,
};

verus! {

/// Whether a name is one that a change gives to what it prepares.
pub open spec fn is_prepared_name(name: Seq<char>) -> bool {
    exists|middle: Seq<char>|
        name == ".skwd-model-import-"@ + #[trigger] middle.take(middle.len() as int) + ".tmp"@
            || name == ".skwd-model-packs-state-"@ + middle.take(middle.len() as int) + ".tmp"@
}

proof fn lemma_prepared(name: Seq<char>)
    ensures
        crate::pack::transaction::is_transaction_name(name) ==> is_prepared_name(name),
        is_prepared_name(name) ==> crate::pack::transaction::is_transaction_name(name),
{
    reveal_strlit(".skwd-model-import-");
    reveal_strlit(".skwd-model-packs-state-");
    reveal_strlit(".tmp");
    let import = ".skwd-model-import-"@;
    let ledger = ".skwd-model-packs-state-"@;
    let end = ".tmp"@;
    if crate::pack::transaction::is_transaction_name(name) {
        let front = if crate::text::begins_with(name, import) {
            import
        } else {
            ledger
        };
        assert(name.take(front.len() as int) == front);
        assert(front.last() == '-');
        assert(name[front.len() - 1] == name.take(front.len() as int)[front.len() - 1]);
        let tail = name.skip(name.len() - end.len());
        assert(tail == end);
        if name.len() < front.len() + end.len() {
            let k = front.len() - 1 - (name.len() - end.len());
            assert(tail[k] == name[front.len() - 1]);
            assert(end[0] == '.' && end[1] == 't' && end[2] == 'm' && end[3] == 'p');
            assert(false);
        }
        let middle = name.subrange(front.len() as int, name.len() - end.len());
        assert(middle.take(middle.len() as int) =~= middle);
        assert(name =~= front + middle + end);
    }
    if is_prepared_name(name) {
        let middle = choose|middle: Seq<char>|
            name == import + #[trigger] middle.take(middle.len() as int) + end || name == ledger
                + middle.take(middle.len() as int) + end;
        assert(name.skip(name.len() - end.len()) =~= end);
        if name == import + middle.take(middle.len() as int) + end {
            assert(name.take(import.len() as int) =~= import);
        } else {
            assert(name.take(ledger.len() as int) =~= ledger);
        }
    }
}

/// A name is taken for that of something left behind if and only if a change gives such names.
pub proof fn law_prepared_names(name: &str, left: bool, work: bool)
    requires
        call_ensures(transaction_named, (name,), left),
        call_ensures(work_named, (name,), work),
    ensures
        left <==> is_prepared_name(name@),
        work ==> left,
{
    lemma_prepared(name@);
}

/// Nothing is cleaned up but what a change prepared, and never through a link. Directories are looked
/// through for a pack first; what is neither a directory nor a file stays.
pub proof fn law_only_prepared_things_are_cleaned_up(
    name: &str,
    is_directory: bool,
    is_file: bool,
    is_symlink: bool,
    action: CleanupAction,
)
    requires
        call_ensures(cleanup_action, (name, is_directory, is_file, is_symlink), action),
    ensures
        action is Keep <==> !is_prepared_name(name@) || is_symlink || !(is_directory || is_file),
        action is RecoverAndRemove <==> is_prepared_name(name@) && !is_symlink && is_directory,
        action is Remove <==> is_prepared_name(name@) && !is_symlink && !is_directory && is_file,
{
    lemma_prepared(name@);
}

/// What is reported as left behind are those of the names that a change gives, each as often as it is
/// there, and nothing else.
pub proof fn law_everything_left_behind_is_reported(
    names: &Vec<String>,
    stale: Vec<String>,
    name: Seq<char>,
)
    requires
        call_ensures(stale_names, (names,), stale),
    ensures
        is_prepared_name(name) ==> text_views(stale@).to_multiset().count(name) == text_views(
            names@,
        ).to_multiset().count(name),
        !is_prepared_name(name) ==> text_views(stale@).to_multiset().count(name) == 0,
        forall|i: int, j: int|
            0 <= i < j < stale@.len() ==> !crate::text::precedes(
                (#[trigger] stale@[j])@,
                (#[trigger] stale@[i])@,
            ),
{
    lemma_counts(text_views(names@), name);
    lemma_prepared(name);
    assert forall|i: int, j: int| 0 <= i < j < stale@.len() implies !crate::text::precedes(
        (#[trigger] stale@[j])@,
        (#[trigger] stale@[i])@,
    ) by {
        assert(crate::sort::may_lead(stale@[i], stale@[j], true));
    }
}

proof fn lemma_counts(names: Seq<Seq<char>>, name: Seq<char>)
    ensures
        left_behind(names).to_multiset().count(name) == if crate::pack::transaction::is_transaction_name(
            name,
        ) {
            names.to_multiset().count(name)
        } else {
            0
        },
    decreases names.len(),
{
    broadcast use vstd::seq_lib::group_to_multiset_ensures;

    if names.len() > 0 {
        let rest = names.drop_last();
        lemma_counts(rest, name);
        assert(names =~= rest.push(names.last()));
        rest.to_multiset_ensures();
        left_behind(rest).to_multiset_ensures();
        assert(rest.push(names.last()).to_multiset() == rest.to_multiset().insert(names.last()));
    } else {
        names.to_multiset_ensures();
        left_behind(names).to_multiset_ensures();
    }
}

/// Whether the ledger refers to a component: as an active or a previous pack.
pub open spec fn is_referred_to(state: PackState, component: Seq<char>) -> bool {
    exists|i: int|
        0 <= i < state.packs@.len() && ((#[trigger] state.packs@[i]).track.active.component@
            == component || (state.packs@[i].track.previous matches Some(previous)
            && previous.component@ == component))
}

proof fn lemma_referred_to(state: PackState, component: Seq<char>)
    ensures
        crate::pack::transaction::refers_to(state@.packs, component) == is_referred_to(
            state,
            component,
        ),
{
    let views = entry_views(state.packs@);
    if crate::pack::transaction::refers_to(views, component) {
        let i = choose|i: int|
            0 <= i < views.len() && crate::pack::transaction::track_refers_to(
                (#[trigger] views[i]).track,
                component,
            );
        assert(views[i] == state.packs@[i]@);
    }
    if is_referred_to(state, component) {
        let i = choose|i: int|
            0 <= i < state.packs@.len() && ((#[trigger] state.packs@[i]).track.active.component@
                == component || (state.packs@[i].track.previous matches Some(previous)
                && previous.component@ == component));
        assert(views[i] == state.packs@[i]@);
        assert(crate::pack::transaction::track_refers_to(views[i].track, component));
    }
}

/// A component is referred to if and only if it is that of an active or a previous pack.
pub proof fn law_references_are_found(state: &PackState, component: &str, found: bool)
    requires
        call_ensures(referenced, (state, component), found),
    ensures
        found <==> is_referred_to(*state, component@),
{
    lemma_referred_to(*state, component@);
}

/// An interrupted removal is undone if and only if the ledger still refers to the pack, nothing stands in
/// its place, and a directory was put aside. It is left as it is where the ledger does not know the pack,
/// or the pack is in its place and nothing is aside; in all other cases nothing is done.
pub proof fn law_removals_are_undone_for_the_ledger(
    state: &PackState,
    component: &str,
    traces: RemovalTraces,
    restore: Result<bool, Failure>,
)
    requires
        call_ensures(recover_removal, (state, component, traces), restore),
        traces.original_is_directory ==> traces.original_exists,
        traces.staged_is_directory ==> traces.staged_exists,
    ensures
        restore == Ok::<bool, Failure>(true) <==> is_referred_to(*state, component@)
            && !traces.original_exists && traces.staged_is_directory,
        restore == Ok::<bool, Failure>(false) <==> !is_referred_to(*state, component@) || (
        traces.original_is_directory && !traces.staged_exists),
{
    lemma_referred_to(*state, component@);
    if restore is Ok {
        assert(restore == Ok::<bool, Failure>(restore->Ok_0));
    }
}

/// Without a ledger an interrupted removal is undone if and only if nothing stands in the pack's place and
/// a directory, no link, was put aside. It is left as it is where the pack is in its place and nothing is
/// aside; in all other cases nothing is done.
pub proof fn law_removals_are_undone_for_repair(
    component: &str,
    traces: RemovalTraces,
    restore: Result<bool, Failure>,
)
    requires
        call_ensures(recover_removal_for_repair, (component, traces), restore),
        traces.staged_is_directory ==> traces.staged_exists,
    ensures
        restore == Ok::<bool, Failure>(true) <==> !traces.original_exists
            && traces.staged_is_directory && !traces.staged_is_symlink,
        restore == Ok::<bool, Failure>(false) <==> traces.original_exists && !traces.staged_exists,
{
    if restore is Ok {
        assert(restore == Ok::<bool, Failure>(restore->Ok_0));
    }
}

/// A removal is recovered only for a component that names one directory.
pub proof fn law_removed_components_are_safe(
    component: &str,
    result: Result<(), Failure>,
    safe: bool,
)
    requires
        call_ensures(check_removed_component, (component,), result),
        call_ensures(crate::path::safe_component, (component,), safe),
    ensures
        result is Ok <==> safe,
{
}

/// The next step of a removal is told by how far it is. Files are put aside one by one; once one cannot be,
/// those that are aside are put back, the last one first; the end is reached with all of them aside, or
/// with none.
pub proof fn law_removals_go_step_by_step(removal: &StagedRemoval, step: RemovalStep)
    requires
        call_ensures(StagedRemoval::next, (removal,), step),
        removal.aside <= removal.total,
    ensures
        step is Stage <==> removal.failed is None && removal.aside < removal.total,
        step is Finish <==> removal.failed is None && removal.aside == removal.total,
        step is Restore <==> removal.failed is Some && removal.aside > 0,
        step is GiveUp <==> removal.failed is Some && removal.aside == 0,
        step matches RemovalStep::Stage { position } ==> position == removal.aside,
        step matches RemovalStep::Restore { position } ==> position == removal.aside - 1,
        step matches RemovalStep::GiveUp { position } ==> removal.failed == Some(position),
{
}

/// A removal begins with all files in place.
pub proof fn law_removals_begin_with_nothing_aside(total: usize, removal: StagedRemoval)
    requires
        call_ensures(StagedRemoval::begin, (total,), removal),
    ensures
        removal.total == total && removal.aside == 0 && removal.failed is None,
{
}

/// A change begins with nothing moved and nothing written.
pub proof fn law_changes_begin_with_nothing_done(publishes: bool, change: Change)
    requires
        call_ensures(Change::begin, (publishes,), change),
    ensures
        change.publishes == publishes && !change.moved && !change.published && change.step is Move,
{
}

/// A change whose steps all succeed is made, and one that cannot write the ledger moves the files back.
pub proof fn law_changes_go_step_by_step(change: Change)
    requires
        change.step is Move,
        !change.moved,
        !change.published,
    ensures
        change.after(false).step is Undone && !change.after(false).moved,
        change.after(true).moved,
        !change.publishes ==> change.after(true).step is Made,
        change.publishes ==> change.after(true).step is Publish,
        change.publishes ==> change.after(true).after(true).step is Made && change.after(
            true,
        ).after(true).published && change.after(true).after(true).moved,
        change.publishes ==> change.after(true).after(false).step is MoveBack && !change.after(
            true,
        ).after(false).published,
        change.publishes ==> change.after(true).after(false).after(true).step is Undone
            && !change.after(true).after(false).after(true).moved,
        change.publishes ==> change.after(true).after(false).after(false).step is Kept
            && change.after(true).after(false).after(false).moved,
{
}

/// A ledger counts as written if it was written, or can be seen to be there.
pub proof fn law_published_ledgers(written: bool, visible: bool, published: bool)
    requires
        call_ensures(is_published, (written, visible), published),
    ensures
        !published <==> !written && !visible,
{
}

} // verus!
