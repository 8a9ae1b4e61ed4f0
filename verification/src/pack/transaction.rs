//! The files of unfinished changes to a model directory, and what is done about them.

use vstd::prelude::*;
use vstd::seq_lib::*;
use vstd::string::*;

use crate::failure::{plain_failure, Failure, FailureView};
use crate::names::text_views;
use crate::pack::records::TrackView;
use crate::pack::state::{entry_views, EntryView, PackState};
use crate::path::{is_safe_component, safe_component};
use crate::sort::{is_sorted, lemma_same_images, sort, Ordered};
use crate::text;
use crate::text::{begins_with, decimal_text, finishes_with, precedes};

verus! {

/// The name of the directory in which a change is prepared.
pub open spec fn work_name(process: nat, sequence: nat) -> Seq<char> {
    ".skwd-model-import-"@ + decimal_text(process) + "-"@ + decimal_text(sequence) + ".tmp"@
}

/// The name under which a ledger is written before it takes the place of the old one.
pub open spec fn ledger_name(process: nat, sequence: nat) -> Seq<char> {
    ".skwd-model-packs-state-"@ + decimal_text(process) + "-"@ + decimal_text(sequence) + ".tmp"@
}

/// The name under which a ledger that cannot be read is kept.
pub open spec fn backup_name(process: nat, revision: nat) -> Seq<char> {
    ".skwd-model-packs-corrupt-"@ + decimal_text(process) + "-"@ + decimal_text(revision)
        + ".json"@
}

fn numbered(prefix: &str, process: u64, number: u64, suffix: &str) -> (name: String)
    ensures
        name@ == prefix@ + decimal_text(process as nat) + "-"@ + decimal_text(number as nat)
            + suffix@,
{
    let first = text::join(prefix, text::decimal(process).as_str());
    let second = text::join(
        text::join(first.as_str(), "-").as_str(),
        text::decimal(number).as_str(),
    );
    text::join(second.as_str(), suffix)
}

/// The name of the directory in which a change is prepared.
pub fn work_directory_name(process: u64, sequence: u64) -> (name: String)
    ensures
        name@ == work_name(process as nat, sequence as nat),
{
    numbered(".skwd-model-import-", process, sequence, ".tmp")
}

/// The name under which a ledger is written before it takes the place of the old one.
pub fn state_temp_name(process: u64, sequence: u64) -> (name: String)
    ensures
        name@ == ledger_name(process as nat, sequence as nat),
{
    numbered(".skwd-model-packs-state-", process, sequence, ".tmp")
}

/// The name under which a ledger that cannot be read is kept.
pub fn corrupt_backup_name(process: u64, revision: u64) -> (name: String)
    ensures
        name@ == backup_name(process as nat, revision as nat),
{
    numbered(".skwd-model-packs-corrupt-", process, revision, ".json")
}

/// Whether a name is that of a directory in which a change is prepared.
pub open spec fn is_work_name(name: Seq<char>) -> bool {
    begins_with(name, ".skwd-model-import-"@) && finishes_with(name, ".tmp"@)
}

/// Whether a name is that of something an unfinished change left behind.
pub open spec fn is_transaction_name(name: Seq<char>) -> bool {
    (begins_with(name, ".skwd-model-import-"@) || begins_with(name, ".skwd-model-packs-state-"@))
        && finishes_with(name, ".tmp"@)
}

/// Tells whether a name is that of a directory in which a change is prepared.
pub fn work_named(name: &str) -> (b: bool)
    ensures
        b == is_work_name(name@),
{
    text::starts_with(name, ".skwd-model-import-") && text::ends_with(name, ".tmp")
}

/// Tells whether a name is that of something an unfinished change left behind.
pub fn transaction_named(name: &str) -> (b: bool)
    ensures
        b == is_transaction_name(name@),
{
    (text::starts_with(name, ".skwd-model-import-") || text::starts_with(
        name,
        ".skwd-model-packs-state-",
    )) && text::ends_with(name, ".tmp")
}

proof fn lemma_ends(prefix: Seq<char>, middle: Seq<char>, suffix: Seq<char>)
    ensures
        begins_with(prefix + middle + suffix, prefix),
        finishes_with(prefix + middle + suffix, suffix),
{
    let whole = prefix + middle + suffix;
    assert(whole.take(prefix.len() as int) =~= prefix);
    assert(whole.skip(whole.len() - suffix.len()) =~= suffix);
}

/// What a change prepares is recognized as left behind if the change is not finished; a ledger that
/// was kept is not.
pub proof fn law_prepared_names_are_recognized(process: nat, sequence: nat)
    ensures
        is_work_name(work_name(process, sequence)),
        is_transaction_name(work_name(process, sequence)),
        is_transaction_name(ledger_name(process, sequence)),
        !is_transaction_name(backup_name(process, sequence)),
{
    let middle = decimal_text(process) + "-"@ + decimal_text(sequence);
    lemma_ends(".skwd-model-import-"@, middle, ".tmp"@);
    assert(work_name(process, sequence) =~= ".skwd-model-import-"@ + middle + ".tmp"@);
    lemma_ends(".skwd-model-packs-state-"@, middle, ".tmp"@);
    assert(ledger_name(process, sequence) =~= ".skwd-model-packs-state-"@ + middle + ".tmp"@);
    lemma_ends(".skwd-model-packs-corrupt-"@, middle, ".json"@);
    let backup = backup_name(process, sequence);
    assert(backup =~= ".skwd-model-packs-corrupt-"@ + middle + ".json"@);
    reveal_strlit(".tmp");
    reveal_strlit(".json");
    if finishes_with(backup, ".tmp"@) {
        let json = backup.skip(backup.len() - 5);
        let tmp = backup.skip(backup.len() - 4);
        assert(json == ".json"@);
        assert(tmp == ".tmp"@);
        assert(json[4] == backup.last());
        assert(tmp[3] == backup.last());
    }
}

impl Ordered for String {
    open spec fn is_before(self, other: Self) -> bool {
        precedes(self@, other@)
    }

    proof fn before_is_asymmetric(self, other: Self) {
        text::law_order_irreflexive(self@);
        if precedes(self@, other@) && precedes(other@, self@) {
            text::law_order_transitive(self@, other@, self@);
        }
    }

    proof fn level_is_transitive(self, middle: Self, other: Self) {
        text::law_order_total(other@, middle@);
        text::law_order_total(middle@, self@);
        if precedes(other@, self@) {
            if middle@ != other@ {
                text::law_order_transitive(middle@, other@, self@);
            }
        }
    }

    fn before(&self, other: &Self) -> (before: bool) {
        text::before(self.as_str(), other.as_str())
    }
}

/// The names that unfinished changes left behind.
pub open spec fn left_behind(names: Seq<Seq<char>>) -> Seq<Seq<char>>
    decreases names.len(),
{
    if names.len() == 0 {
        Seq::empty()
    } else {
        let earlier = left_behind(names.drop_last());
        if is_transaction_name(names.last()) {
            earlier.push(names.last())
        } else {
            earlier
        }
    }
}

/// The names that unfinished changes left behind, in order.
pub fn stale_names(names: &Vec<String>) -> (stale: Vec<String>)
    ensures
        is_sorted(stale@, true),
        text_views(stale@).to_multiset() == left_behind(text_views(names@)).to_multiset(),
        stale@.len() == left_behind(text_views(names@)).len(),
{
    let ghost views = text_views(names@);
    let mut found: Vec<String> = Vec::new();
    let mut position: usize = 0;
    assert(views.take(0) =~= Seq::<Seq<char>>::empty());
    assert(text_views(found@) =~= Seq::<Seq<char>>::empty());
    while position < names.len()
        invariant
            views == text_views(names@),
            position <= names@.len(),
            text_views(found@) == left_behind(views.take(position as int)),
        decreases names@.len() - position,
    {
        let name = &names[position];
        proof {
            let next = views.take(position + 1);
            assert(next.drop_last() =~= views.take(position as int));
            assert(next.last() == name@);
        }
        if transaction_named(name.as_str()) {
            let ghost before = found@;
            found.push(name.clone());
            assert(text_views(found@) =~= text_views(before).push(name@));
        }
        position = position + 1;
    }
    assert(views.take(position as int) =~= views);
    let ghost unsorted = found@;
    let stale = sort(found);
    proof {
        lemma_same_images(stale@, unsorted, |text: String| text@);
        assert(text_views(unsorted).len() == unsorted.len());
    }
    stale
}

/// What is done with something that an unfinished change may have left behind.
#[derive(Debug, Clone, Copy, PartialEq, Eq, Structural)]
pub enum CleanupAction {
    /// It stays.
    Keep,
    /// A pack that it holds may have to be restored; then it is removed.
    RecoverAndRemove,
    /// It is removed.
    Remove,
}

/// Decides what is done with an entry of the model directory that a change may have left behind.
pub fn cleanup_action(
    name: &str,
    is_directory: bool,
    is_file: bool,
    is_symlink: bool,
) -> (action: CleanupAction)
    ensures
        action == (if !is_transaction_name(name@) || is_symlink {
            CleanupAction::Keep
        } else if is_directory {
            CleanupAction::RecoverAndRemove
        } else if is_file {
            CleanupAction::Remove
        } else {
            CleanupAction::Keep
        }),
{
    if !transaction_named(name) || is_symlink {
        CleanupAction::Keep
    } else if is_directory {
        CleanupAction::RecoverAndRemove
    } else if is_file {
        CleanupAction::Remove
    } else {
        CleanupAction::Keep
    }
}

/// Whether a ledger refers to a component.
pub open spec fn refers_to(packs: Seq<EntryView>, component: Seq<char>) -> bool {
    exists|i: int|
        0 <= i < packs.len() && track_refers_to((#[trigger] packs[i]).track, component)
}

/// Whether a track refers to a component.
pub open spec fn track_refers_to(track: TrackView, component: Seq<char>) -> bool {
    ||| track.active.component == component
    ||| track.previous matches Some(previous) && previous.component == component
}

/// Tells whether a ledger refers to a component.
pub fn referenced(state: &PackState, component: &str) -> (found: bool)
    ensures
        found == refers_to(state@.packs, component@),
{
    let ghost views = state@.packs;
    let mut position: usize = 0;
    while position < state.packs.len()
        invariant
            views == entry_views(state.packs@),
            position <= state.packs@.len(),
            forall|i: int|
                0 <= i < position ==> !track_refers_to((#[trigger] views[i]).track, component@),
        decreases state.packs@.len() - position,
    {
        let track = &state.packs[position].track;
        assert(views[position as int].track == track@);
        let previous = match &track.previous {
            Some(previous) => text::same(previous.component.as_str(), component),
            None => false,
        };
        if previous || text::same(track.active.component.as_str(), component) {
            assert(track_refers_to(views[position as int].track, component@));
            return true;
        }
        position = position + 1;
    }
    false
}

/// What is in place of a pack whose removal was interrupted.
#[derive(Debug, Clone, Copy, PartialEq, Eq)]
pub struct RemovalTraces {
    /// Something stands where the pack was installed.
    pub original_exists: bool,
    /// It is a directory.
    pub original_is_directory: bool,
    /// Something stands where the pack was moved to.
    pub staged_exists: bool,
    /// It is a directory.
    pub staged_is_directory: bool,
    /// It is a symbolic link.
    pub staged_is_symlink: bool,
}

/// Whether an interrupted removal is undone before its traces are removed, or why it can be neither
/// undone nor finished.
pub open spec fn undoes_removal(referenced: bool, traces: RemovalTraces) -> Result<
    bool,
    FailureView,
> {
    if !referenced {
        Ok(false)
    } else if traces.original_is_directory && !traces.staged_exists {
        Ok(false)
    } else if traces.original_exists {
        Err(plain_failure("interrupted removal has both staged and installed copies"@))
    } else if !traces.staged_is_directory {
        Err(plain_failure("interrupted removal lost referenced component"@))
    } else {
        Ok(true)
    }
}

/// Checks the component that a removal was about.
pub fn check_removed_component(component: &str) -> (result: Result<(), Failure>)
    ensures
        match result {
            Ok(_) => is_safe_component(component@),
            Err(failure) => !is_safe_component(component@) && failure@ == plain_failure(
                "invalid removal transaction component"@,
            ),
        },
{
    if safe_component(component) {
        Ok(())
    } else {
        Err(Failure::plain("invalid removal transaction component"))
    }
}

/// Decides whether an interrupted removal is undone.
pub fn recover_removal(state: &PackState, component: &str, traces: RemovalTraces) -> (restore: Result<
    bool,
    Failure,
>)
    ensures
        match (restore, undoes_removal(refers_to(state@.packs, component@), traces)) {
            (Ok(restore), Ok(expected)) => restore == expected,
            (Err(failure), Err(expected)) => failure@ == expected,
            _ => false,
        },
{
    if !referenced(state, component) {
        return Ok(false);
    }
    if traces.original_is_directory && !traces.staged_exists {
        return Ok(false);
    }
    if traces.original_exists {
        return Err(Failure::plain("interrupted removal has both staged and installed copies"));
    }
    if !traces.staged_is_directory {
        return Err(Failure::plain("interrupted removal lost referenced component"));
    }
    Ok(true)
}

/// Whether an interrupted removal is undone where no ledger tells what it was about, or why not.
pub open spec fn undoes_removal_for_repair(component: Seq<char>, traces: RemovalTraces) -> Result<
    bool,
    FailureView,
> {
    if traces.original_exists && traces.staged_exists {
        Err(
            plain_failure(
                "interrupted removal has both staged and installed copies of "@ + component,
            ),
        )
    } else if traces.original_exists {
        Ok(false)
    } else if !traces.staged_exists {
        Err(plain_failure("interrupted removal lost model-pack component "@ + component))
    } else if !traces.staged_is_directory || traces.staged_is_symlink {
        Err(plain_failure("interrupted removal contains an invalid staged component"@))
    } else {
        Ok(true)
    }
}

/// Decides whether an interrupted removal is undone where no ledger tells what it was about.
pub fn recover_removal_for_repair(component: &str, traces: RemovalTraces) -> (restore: Result<
    bool,
    Failure,
>)
    ensures
        match (restore, undoes_removal_for_repair(component@, traces)) {
            (Ok(restore), Ok(expected)) => restore == expected,
            (Err(failure), Err(expected)) => failure@ == expected,
            _ => false,
        },
{
    if traces.original_exists && traces.staged_exists {
        let message = text::join(
            "interrupted removal has both staged and installed copies of ",
            component,
        );
        return Err(Failure::plain(message.as_str()));
    }
    if traces.original_exists {
        return Ok(false);
    }
    if !traces.staged_exists {
        let message = text::join("interrupted removal lost model-pack component ", component);
        return Err(Failure::plain(message.as_str()));
    }
    if !traces.staged_is_directory || traces.staged_is_symlink {
        return Err(Failure::plain("interrupted removal contains an invalid staged component"));
    }
    Ok(true)
}

/// An interrupted removal is only undone where nothing stands in the pack's place and a staged
/// directory is there to take it; a pack that the ledger refers to is never given up in silence.
pub proof fn law_recovery_loses_nothing(
    referenced: bool,
    component: Seq<char>,
    traces: RemovalTraces,
)
    requires
        traces.original_is_directory ==> traces.original_exists,
        traces.staged_is_directory ==> traces.staged_exists,
    ensures
        undoes_removal(referenced, traces) == Ok::<bool, FailureView>(true) ==> referenced
            && !traces.original_exists && traces.staged_is_directory,
        undoes_removal_for_repair(component, traces) == Ok::<bool, FailureView>(true)
            ==> !traces.original_exists && traces.staged_is_directory,
        referenced && undoes_removal(referenced, traces) == Ok::<bool, FailureView>(false)
            ==> traces.original_is_directory,
        undoes_removal_for_repair(component, traces) == Ok::<bool, FailureView>(false)
            ==> traces.original_exists,
{
}

} // verus!
