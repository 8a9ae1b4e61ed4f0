//! What operations do to what they change in place: the ledger, a walk over a pack, the issues of a
//! diagnosis, and the progress of a change.

use vstd::prelude::*;
use vstd::string::*;

use crate::failure::Failure;
use crate::index::IndexHeader;
use crate::pack::activation::{activate, retire, rollback};
use crate::pack::change::Change;
use crate::pack::contents::{EntryKind, TreeAudit};
use crate::pack::doctor::{index_compatibility, runtime_compatibility, CompatibilityCheck};
use crate::pack::doctor_laws::{is_index_of, law_index_needs_its_pack};
use crate::pack::error::PackError;
use crate::pack::health_laws::law_runtimes_are_held_against_the_record;
use crate::pack::import_laws::law_rollback_exchanges_healthy_packs;
use crate::pack::ledger_laws::law_removal_retires_the_pack;
use crate::pack::records::{
    BuildInfo, PackMetadata, PackReference, PackTrack, ReferenceView, TrackView,
};
use crate::pack::removal::StagedRemoval;
use crate::pack::scan::{issue_views, InstalledPack, PackIssue, PackRole, Severity};
use crate::pack::state::{is_ordered, law_with_track, law_without_track, track_of, PackState};
use crate::text;

verus! {

/// Whether the ledger gives a track to an id.
pub open spec fn has_track(state: PackState, id: Seq<char>, track: Option<TrackView>) -> bool {
    track_of(state@.packs, id) == track
}

/// Whether two ledgers are the same but for one id.
pub open spec fn differs_at_most_at(before: PackState, after: PackState, id: Seq<char>) -> bool {
    &&& after.format == before.format
    &&& after.written_by@ == before.written_by@
    &&& forall|other: Seq<char>|
        other != id ==> #[trigger] track_of(after@.packs, other) == track_of(before@.packs, other)
}

/// A track that is entered is the one of its id from then on, and those of other ids stay.
pub proof fn law_entered_tracks_are_kept(id: String, track: PackTrack)
    ensures
        forall|state: &mut PackState| #[trigger]
            call_ensures(PackState::insert, (state, id, track), ()) && is_ordered((*state)@.packs)
                ==> has_track(*final(state), id@, Some(track@)) && differs_at_most_at(
                *state,
                *final(state),
                id@,
            ),
{
    assert forall|state: &mut PackState| #[trigger]
        call_ensures(PackState::insert, (state, id, track), ()) && is_ordered(
            (*state)@.packs,
        ) implies has_track(*final(state), id@, Some(track@)) && differs_at_most_at(
        *state,
        *final(state),
        id@,
    ) by {
        law_with_track((*state)@.packs, id@, track@, id@);
        assert forall|other: Seq<char>| other != id@ implies #[trigger] track_of(
            (*final(state))@.packs,
            other,
        ) == track_of((*state)@.packs, other) by {
            law_with_track((*state)@.packs, id@, track@, other);
        }
    }
}

/// A track that is taken out is gone, and those of other ids stay.
pub proof fn law_removed_tracks_are_gone(id: &str)
    ensures
        forall|state: &mut PackState| #[trigger]
            call_ensures(PackState::remove, (state, id), ()) && is_ordered((*state)@.packs)
                ==> has_track(*final(state), id@, None) && differs_at_most_at(
                *state,
                *final(state),
                id@,
            ),
{
    assert forall|state: &mut PackState| #[trigger]
        call_ensures(PackState::remove, (state, id), ()) && is_ordered(
            (*state)@.packs,
        ) implies has_track(*final(state), id@, None) && differs_at_most_at(
        *state,
        *final(state),
        id@,
    ) by {
        law_without_track((*state)@.packs, id@, id@);
        assert forall|other: Seq<char>| other != id@ implies #[trigger] track_of(
            (*final(state))@.packs,
            other,
        ) == track_of((*state)@.packs, other) by {
            law_without_track((*state)@.packs, id@, other);
        }
    }
}

/// Whether a reference is to a pack in a component, with everything that was found in it.
pub open spec fn records(
    reference: ReferenceView,
    component: Seq<char>,
    metadata: PackMetadata,
    runtime_version: Option<Seq<char>>,
    build: BuildInfo,
) -> bool {
    &&& reference.component == component
    &&& reference.id == metadata.id@
    &&& reference.version == metadata.version@
    &&& reference.format == metadata.format
    &&& reference.dimensions == metadata.dimensions
    &&& reference.bytes == metadata.bytes
    &&& reference.files == metadata@.files
    &&& reference.installed_by == build.version@
    &&& reference.runtime_api_minor == build.runtime_api_minor
    &&& reference.runtime_version == runtime_version
}

/// An imported pack becomes the active one of its id, and the pack that was active before becomes the
/// previous one. Nothing else in the ledger changes.
pub proof fn law_imported_packs_become_active(
    component: String,
    metadata: &PackMetadata,
    runtime_version: Option<String>,
    prior: Option<PackTrack>,
    build: &BuildInfo,
)
    ensures
        forall|state: &mut PackState, track: PackTrack| #[trigger]
            call_ensures(
                activate,
                (state, component, metadata, runtime_version, prior, build),
                track,
            ) && is_ordered((*state)@.packs) ==> {
                &&& records(
                    track.active@,
                    component@,
                    *metadata,
                    text::optional(runtime_version),
                    *build,
                )
                &&& prior matches Some(prior) ==> (track@.previous == Some(prior.active@))
                &&& prior is None ==> track.previous is None
                &&& has_track(*final(state), metadata.id@, Some(track@))
                &&& differs_at_most_at(*state, *final(state), metadata.id@)
            },
{
    assert forall|state: &mut PackState, track: PackTrack| #[trigger]
        call_ensures(
            activate,
            (state, component, metadata, runtime_version, prior, build),
            track,
        ) && is_ordered((*state)@.packs) implies {
        &&& records(
            track.active@,
            component@,
            *metadata,
            text::optional(runtime_version),
            *build,
        )
        &&& prior matches Some(prior) ==> (track@.previous == Some(prior.active@))
        &&& prior is None ==> track.previous is None
        &&& has_track(*final(state), metadata.id@, Some(track@))
        &&& differs_at_most_at(*state, *final(state), metadata.id@)
    } by {
        law_with_track((*state)@.packs, metadata.id@, track@, metadata.id@);
        assert forall|other: Seq<char>| other != metadata.id@ implies #[trigger] track_of(
            (*final(state))@.packs,
            other,
        ) == track_of((*state)@.packs, other) by {
            law_with_track((*state)@.packs, metadata.id@, track@, other);
        }
    }
}

/// Whether a component is listed as healthy.
pub open spec fn is_listed_healthy(installed: Seq<InstalledPack>, component: Seq<char>) -> bool {
    exists|i: int|
        0 <= i < installed.len() && (#[trigger] installed[i]).component@ == component
            && installed[i].healthy
}

/// A rollback makes the previous pack of an id the active one and the active one the previous. It is made
/// if and only if there are both and both are healthy; a rollback that is refused changes nothing.
pub proof fn law_rollbacks_exchange_packs(installed: &Vec<InstalledPack>, id: &str)
    ensures
        forall|state: &mut PackState, result: Result<PackTrack, PackError>| #[trigger]
            call_ensures(rollback, (state, installed, id), result) && is_ordered((*state)@.packs)
                ==> {
                &&& result is Ok <==> (track_of((*state)@.packs, id@) matches Some(track) && (
                track.previous matches Some(previous) && is_listed_healthy(
                    installed@,
                    track.active.component,
                ) && is_listed_healthy(installed@, previous.component)))
                &&& result matches Ok(after) ==> (track_of((*state)@.packs, id@) matches Some(
                    before,
                ) && Some(after@.active) == before.previous && after@.previous == Some(
                    before.active,
                ) && has_track(*final(state), id@, Some(after@)) && differs_at_most_at(
                    *state,
                    *final(state),
                    id@,
                ))
                &&& result is Err ==> (*final(state))@ == (*state)@
            },
{
    assert forall|state: &mut PackState, result: Result<PackTrack, PackError>| #[trigger]
        call_ensures(rollback, (state, installed, id), result) && is_ordered(
            (*state)@.packs,
        ) implies {
        &&& result is Ok <==> (track_of((*state)@.packs, id@) matches Some(track) && (
        track.previous matches Some(previous) && is_listed_healthy(
            installed@,
            track.active.component,
        ) && is_listed_healthy(installed@, previous.component)))
        &&& result matches Ok(after) ==> (track_of((*state)@.packs, id@) matches Some(before)
            && Some(after@.active) == before.previous && after@.previous == Some(before.active)
            && has_track(*final(state), id@, Some(after@)) && differs_at_most_at(
            *state,
            *final(state),
            id@,
        ))
        &&& result is Err ==> (*final(state))@ == (*state)@
    } by {
        law_rollback_exchanges_healthy_packs((*state)@.packs, installed@, id@);
        if let Ok(after) = result {
            law_with_track((*state)@.packs, id@, after@, id@);
            assert forall|other: Seq<char>| other != id@ implies #[trigger] track_of(
                (*final(state))@.packs,
                other,
            ) == track_of((*state)@.packs, other) by {
                law_with_track((*state)@.packs, id@, after@, other);
            }
        }
    }
}

/// A pack that was removed is no longer in the ledger: its id has no track if it was the active one, and no
/// previous pack if it was that; otherwise the ledger stays as it is, and counts as unchanged. Other ids
/// are not touched.
pub proof fn law_removed_packs_leave_the_ledger(id: &str, target: &InstalledPack)
    ensures
        forall|state: &mut PackState, changed: bool| #[trigger]
            call_ensures(retire, (state, id, target), changed) && is_ordered((*state)@.packs)
                ==> {
                let kept = track_of((*state)@.packs, id@) matches Some(track) && (
                track.previous matches Some(previous) && previous.component == target.component@);
                &&& changed <==> target.role == PackRole::Active || kept
                &&& target.role == PackRole::Active ==> has_track(*final(state), id@, None)
                &&& target.role != PackRole::Active && kept ==> (track_of(
                    (*state)@.packs,
                    id@,
                ) matches Some(before) && has_track(
                    *final(state),
                    id@,
                    Some(TrackView { active: before.active, previous: None }),
                ))
                &&& !changed ==> (*final(state))@.packs == (*state)@.packs
                &&& differs_at_most_at(*state, *final(state), id@)
            },
{
    assert forall|state: &mut PackState, changed: bool| #[trigger]
        call_ensures(retire, (state, id, target), changed) && is_ordered((*state)@.packs) implies {
        let kept = track_of((*state)@.packs, id@) matches Some(track) && (
        track.previous matches Some(previous) && previous.component == target.component@);
        &&& changed <==> target.role == PackRole::Active || kept
        &&& target.role == PackRole::Active ==> has_track(*final(state), id@, None)
        &&& target.role != PackRole::Active && kept ==> (track_of(
            (*state)@.packs,
            id@,
        ) matches Some(before) && has_track(
            *final(state),
            id@,
            Some(TrackView { active: before.active, previous: None }),
        ))
        &&& !changed ==> (*final(state))@.packs == (*state)@.packs
        &&& differs_at_most_at(*state, *final(state), id@)
    } by {
        let packs = (*state)@.packs;
        law_removal_retires_the_pack(packs, id@, *target);
        assert forall|other: Seq<char>| other != id@ implies #[trigger] track_of(
            (*final(state))@.packs,
            other,
        ) == track_of(packs, other) by {
            law_without_track(packs, id@, id@);
            law_without_track(packs, id@, other);
            if let Some(track) = track_of(packs, id@) {
                law_with_track(
                    packs,
                    id@,
                    TrackView { active: track.active, previous: None },
                    other,
                );
            }
        }
    }
}

/// An entry is taken into a pack if and only if there is still room and it is a directory, or a file that
/// is not too large; it is counted then, and what is refused changes nothing.
pub proof fn law_entered_entries_are_counted(kind: EntryKind, path: &str)
    ensures
        forall|audit: &mut TreeAudit, result: Result<(), Failure>| #[trigger]
            call_ensures(TreeAudit::enter, (audit, kind, path), result) ==> {
                &&& result is Ok <==> (*audit).entries < 100_000 && (kind is Directory || (
                kind matches EntryKind::File { bytes } && (*audit).bytes + bytes
                    <= 0x4_0000_0000))
                &&& result is Ok ==> (*final(audit)).entries == (*audit).entries + 1
                &&& result is Ok && kind is Directory ==> (*final(audit)).bytes == (*audit).bytes
                &&& result is Ok ==> (kind matches EntryKind::File { bytes } ==> (
                *final(audit)).bytes == (*audit).bytes + bytes)
                &&& result is Err ==> (*final(audit))@ == (*audit)@
                &&& (*final(audit))@.files == (*audit)@.files
            },
{
}

/// A file is recorded behind those before it, with its path and its size.
pub proof fn law_recorded_files_come_last(path: String, bytes: u64, contents: &[u8])
    ensures
        forall|audit: &mut TreeAudit| #[trigger]
            call_ensures(TreeAudit::record, (audit, path, bytes, contents), ()) ==> {
                let before = (*audit)@.files;
                let after = (*final(audit))@.files;
                &&& after.len() == before.len() + 1
                &&& after.drop_last() == before
                &&& after.last().path == path@
                &&& after.last().bytes == bytes
                &&& (*final(audit)).entries == (*audit).entries
                &&& (*final(audit)).bytes == (*audit).bytes
            },
{
    assert forall|audit: &mut TreeAudit| #[trigger]
        call_ensures(TreeAudit::record, (audit, path, bytes, contents), ()) implies {
        let before = (*audit)@.files;
        let after = (*final(audit))@.files;
        &&& after.len() == before.len() + 1
        &&& after.drop_last() == before
        &&& after.last().path == path@
        &&& after.last().bytes == bytes
        &&& (*final(audit)).entries == (*audit).entries
        &&& (*final(audit)).bytes == (*audit).bytes
    } by {
        let before = (*audit)@.files;
        let after = (*final(audit))@.files;
        assert(after.drop_last() =~= before);
    }
}

/// Whether issues are those before with others behind them.
pub open spec fn are_added(before: Seq<PackIssue>, after: Seq<PackIssue>, added: int) -> bool {
    &&& after.len() == before.len() + added
    &&& forall|i: int| 0 <= i < before.len() ==> (#[trigger] after[i])@ == before[i]@
}

/// An index goes together with the active pack if and only if it was made with it. If it was not, that is
/// added to the issues as the only one, an error; issues that were there before stay.
pub proof fn law_foreign_indexes_are_errors(
    id: &str,
    active: Option<&PackReference>,
    index: &Result<IndexHeader, String>,
)
    ensures
        forall|issues: &mut Vec<PackIssue>, check: CompatibilityCheck| #[trigger]
            call_ensures(index_compatibility, (id, active, index, issues), check) ==> {
                let fits = is_index_of(
                    match active {
                        Some(reference) => Some(reference@),
                        None => None,
                    },
                    *index,
                );
                &&& check.compatible <==> fits
                &&& fits ==> are_added((*issues)@, (*final(issues))@, 0)
                &&& !fits ==> are_added((*issues)@, (*final(issues))@, 1) && (
                *final(issues))@.last().severity == Severity::Error && (
                *final(issues))@.last().code@ == "index_incompatible"@
            },
{
    law_index_needs_its_pack(id, active, index);
    assert forall|issues: &mut Vec<PackIssue>, check: CompatibilityCheck| #[trigger]
        call_ensures(index_compatibility, (id, active, index, issues), check) implies {
        let fits = is_index_of(
            match active {
                Some(reference) => Some(reference@),
                None => None,
            },
            *index,
        );
        &&& check.compatible <==> fits
        &&& fits ==> are_added((*issues)@, (*final(issues))@, 0)
        &&& !fits ==> are_added((*issues)@, (*final(issues))@, 1) && (
        *final(issues))@.last().severity == Severity::Error && (*final(issues))@.last().code@
            == "index_incompatible"@
    } by {
        lemma_added((*issues)@, (*final(issues))@);
    }
}

proof fn lemma_added(before: Seq<PackIssue>, after: Seq<PackIssue>)
    ensures
        issue_views(before).len() == before.len(),
        issue_views(after).len() == after.len(),
        after.len() > 0 ==> issue_views(after).last() == after.last()@,
        issue_views(after).len() >= issue_views(before).len() && issue_views(after).take(
            before.len() as int,
        ) == issue_views(before) ==> are_added(before, after, after.len() - before.len()),
        forall|added: Seq<crate::pack::scan::IssueView>|
            issue_views(after) == #[trigger] (issue_views(before) + added) ==> are_added(
                before,
                after,
                added.len() as int,
            ) && (added.len() > 0 ==> after.last()@ == added.last()) && (added.len() > 1
                ==> after[after.len() - 2]@ == added[added.len() - 2]),
{
    let first = issue_views(before);
    let second = issue_views(after);
    assert forall|i: int| 0 <= i < before.len() implies first[i] == (#[trigger] before[i])@ by {
    }
    assert forall|i: int| 0 <= i < after.len() implies second[i] == (#[trigger] after[i])@ by {
    }
    if second.len() >= first.len() && second.take(before.len() as int) == first {
        assert forall|i: int| 0 <= i < before.len() implies (#[trigger] after[i])@
            == before[i]@ by {
            assert(second.take(before.len() as int)[i] == second[i]);
        }
    }
    assert forall|added: Seq<crate::pack::scan::IssueView>|
        second == #[trigger] (first + added) implies are_added(before, after, added.len() as int)
        && (added.len() > 0 ==> after.last()@ == added.last()) && (added.len() > 1 ==> after[
        after.len() - 2
    ]@ == added[added.len() - 2]) by {
        assert forall|i: int| 0 <= i < before.len() implies (#[trigger] after[i])@
            == before[i]@ by {
            assert(second[i] == first[i]);
        }
        if added.len() > 0 {
            assert(second[second.len() - 1] == added.last());
        }
        if added.len() > 1 {
            assert(second[second.len() - 2] == added[added.len() - 2]);
        }
    }
}

/// A runtime goes together with a pack if and only if the models were loaded with it. Models that do not
/// load are an error; a version other than the recorded one is worth a warning. Issues that were there
/// before stay.
pub proof fn law_unfit_runtimes_are_errors(
    active: Option<&PackReference>,
    runtime: &str,
    version: Option<String>,
    trial: &Option<Result<(), String>>,
    build: &BuildInfo,
)
    ensures
        forall|issues: &mut Vec<PackIssue>, check: CompatibilityCheck| #[trigger]
            call_ensures(
                runtime_compatibility,
                (active, runtime, version, trial, build, issues),
                check,
            ) ==> {
                let changed = active matches Some(reference) && (
                reference.runtime_version matches Some(recorded) && (version matches Some(
                    selected,
                ) && selected@ != recorded@));
                let failed = *trial matches Some(Err(_));
                let before = (*issues)@;
                let after = (*final(issues))@;
                &&& check.compatible <==> (*trial matches Some(Ok(_)))
                &&& are_added(
                    before,
                    after,
                    (if changed {
                        1int
                    } else {
                        0
                    }) + (if failed {
                        1int
                    } else {
                        0
                    }),
                )
                &&& failed ==> after.last().severity == Severity::Error && after.last().code@
                    == "runtime_incompatible"@
                &&& changed ==> after[before.len() as int].severity == Severity::Warning
                    && after[before.len() as int].code@ == "runtime_version_changed"@
            },
{
    assert forall|issues: &mut Vec<PackIssue>, check: CompatibilityCheck| #[trigger]
        call_ensures(
            runtime_compatibility,
            (active, runtime, version, trial, build, issues),
            check,
        ) implies {
        let changed = active matches Some(reference) && (
        reference.runtime_version matches Some(recorded) && (version matches Some(selected)
            && selected@ != recorded@));
        let failed = *trial matches Some(Err(_));
        let before = (*issues)@;
        let after = (*final(issues))@;
        &&& check.compatible <==> (*trial matches Some(Ok(_)))
        &&& are_added(
            before,
            after,
            (if changed {
                1int
            } else {
                0
            }) + (if failed {
                1int
            } else {
                0
            }),
        )
        &&& failed ==> after.last().severity == Severity::Error && after.last().code@
            == "runtime_incompatible"@
        &&& changed ==> after[before.len() as int].severity == Severity::Warning && after[
            before.len() as int
        ].code@ == "runtime_version_changed"@
    } by {
        let before = (*issues)@;
        let after = (*final(issues))@;
        let expected = crate::pack::scan::expected_view(active);
        let found = crate::pack::doctor::runtime_issues(
            expected,
            text::optional(version),
            crate::pack::doctor::trial_view(*trial),
        );
        lemma_added(before, after);
        law_runtimes_are_held_against_the_record(
            expected,
            text::optional(version),
            crate::pack::doctor::trial_view(*trial),
        );
        assert(issue_views(after) == issue_views(before) + found);
        if found.len() > 0 {
            assert(issue_views(after)[before.len() as int] == found[0]);
            assert(issue_views(after)[before.len() as int] == after[before.len() as int]@);
        }
    }
}

/// A file that was moved aside is counted, and one that could not be ends the moving; a file that was put
/// back is no longer counted.
pub proof fn law_staged_files_are_counted(moved: bool)
    ensures
        forall|removal: &mut StagedRemoval| #[trigger]
            call_ensures(StagedRemoval::staged, (removal, moved), ()) && (*removal).is_consistent()
                && (*removal).failed is None && (*removal).aside < (*removal).total ==> {
                let after = *final(removal);
                &&& after.total == (*removal).total
                &&& moved ==> after.aside == (*removal).aside + 1 && after.failed is None
                &&& !moved ==> after.aside == (*removal).aside && after.failed == Some(
                    (*removal).aside,
                )
            },
        forall|removal: &mut StagedRemoval| #[trigger]
            call_ensures(StagedRemoval::restored, (removal,), ()) && (*removal).is_consistent()
                && (*removal).failed is Some && (*removal).aside > 0 ==> {
                let after = *final(removal);
                &&& after.total == (*removal).total
                &&& after.aside == (*removal).aside - 1
                &&& after.failed == (*removal).failed
            },
{
}

/// A change goes on as its steps succeed or fail: files are moved first, then the ledger is written, and the
/// files are moved back if it cannot be.
pub proof fn law_changes_proceed(succeeded: bool)
    ensures
        forall|change: &mut Change| #[trigger]
            call_ensures(Change::proceed, (change, succeeded), ()) ==> {
                let before = *change;
                let after = *final(change);
                &&& after.publishes == before.publishes
                &&& before.step is Move ==> after.moved == (succeeded || before.moved)
                    && after.published == before.published && if !succeeded {
                    after.step is Undone
                } else if before.publishes {
                    after.step is Publish
                } else {
                    after.step is Made
                }
                &&& before.step is Publish ==> after.published == (succeeded || before.published)
                    && after.moved == before.moved && if succeeded {
                    after.step is Made
                } else {
                    after.step is MoveBack
                }
                &&& before.step is MoveBack ==> after.published == before.published && if succeeded {
                    after.step is Undone && !after.moved
                } else {
                    after.step is Kept && after.moved == before.moved
                }
                &&& before.step is Made || before.step is Undone || before.step is Kept ==> after
                    == before
            },
{
}

} // verus!
