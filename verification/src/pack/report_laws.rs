//! What the operations on model packs report.

use vstd::prelude::*;
use vstd::string::*;

use crate::pack::command::{ImportMode, Operation};
use crate::pack::doctor_laws::{is_usable, lemma_pack_with};
use crate::pack::error::PackError;
use crate::pack::records::{BuildInfo, PackMetadata, PackTrack};
use crate::pack::report::{
    diagnosed, doctor_state, failure_report, install_report, list, removal_report, remove_report,
    rollback_report, FailureReport, InstallReport, LifecycleReport, ListReport, RemovalReport,
    RemoveReport, RollbackReport,
};
use crate::pack::scan::{issue_views, InstalledPack, PackIssue, Severity};
use crate::pack::state::{track_of, PackState};
use crate::path::join_path;

verus! {

/// A failed operation is reported as failed, with what went wrong, and what can be done about it.
pub proof fn law_failures_are_reported(
    operation: Operation,
    error: &PackError,
    report: FailureReport,
    shown: String,
)
    requires
        call_ensures(failure_report, (operation, error), report),
        call_ensures(PackError::chain, (error,), shown),
    ensures
        report.operation == operation,
        !report.ok,
        report.message@ == shown@,
        error matches PackError::Lifecycle(failure) ==> report.code@ == failure.code@
            && report.hint@ == failure.hint@,
        error is Failed ==> report.code@ == "operation_failed"@,
{
}

/// An import is reported with the pack that was imported and the two packs of its track.
pub proof fn law_imports_are_reported(
    mode: ImportMode,
    metadata: &PackMetadata,
    destination: &str,
    track: PackTrack,
    report: InstallReport,
    operation: Operation,
    name: &str,
    manifest: String,
)
    requires
        call_ensures(install_report, (mode, metadata, destination, track), report),
        call_ensures(ImportMode::operation, (mode,), operation),
        name@ == "semantic-pack.json"@,
        call_ensures(join_path, (destination, name), manifest),
    ensures
        report.operation == operation,
        report.id@ == metadata.id@ && report.version@ == metadata.version@,
        report.dimensions == metadata.dimensions && report.bytes == metadata.bytes,
        report.format == metadata.format,
        report.manifest@ == manifest@,
        report.active == track.active && report.previous == track.previous,
{
}

/// A list has every installed pack.
pub proof fn law_lists_are_reported(
    models_dir: String,
    state: &PackState,
    installed: Vec<InstalledPack>,
    build: &BuildInfo,
    report: ListReport,
)
    requires
        call_ensures(list, (models_dir, state, installed, build), report),
    ensures
        report.operation is List,
        report.format == 1,
        report.packs@ == installed@,
        report.models_dir@ == models_dir@,
        report.app_version@ == build.version@,
        report.state_written_by@ == state.written_by@,
{
}

/// A rollback is reported with the packs as they are afterwards.
pub proof fn law_rollbacks_are_reported(id: &str, track: PackTrack, report: RollbackReport)
    requires
        call_ensures(rollback_report, (id, track), report),
        track.previous is Some,
    ensures
        report.operation is Rollback,
        report.id@ == id@,
        report.active == track.active,
        track.previous == Some(report.previous),
{
}

/// A removal is reported with the pack that was removed.
pub proof fn law_removals_are_reported(
    target: &InstalledPack,
    report: RemoveReport,
    manifest: String,
    files: usize,
    deletion: RemovalReport,
)
    requires
        call_ensures(remove_report, (target,), report),
        call_ensures(removal_report, (manifest, files), deletion),
    ensures
        report.operation is Remove && report.removed,
        report.id@ == target.id@ && report.version@ == target.version@ && report.component@
            == target.component@,
        deletion.removed && deletion.manifest@ == manifest@ && deletion.files == files,
{
}

/// The program ends as failed after a diagnosis that found something, and after no other report.
pub proof fn law_only_diagnoses_fail(report: &LifecycleReport, successful: bool)
    requires
        call_ensures(LifecycleReport::successful, (report,), successful),
    ensures
        !successful <==> (report matches LifecycleReport::Doctor(diagnosis) && !diagnosis.ok),
{
}

/// A diagnosis goes by the ledger that was read. One that cannot be read is an error, and counts as
/// empty.
pub proof fn law_unreadable_ledgers_are_diagnosed(
    loaded: Result<PackState, String>,
    build: &BuildInfo,
    result: (PackState, Vec<PackIssue>),
)
    requires
        call_ensures(doctor_state, (loaded, build), result),
    ensures
        loaded matches Ok(state) ==> result.0 == state && result.1@.len() == 0,
        loaded is Err ==> result.0.packs@.len() == 0 && result.0.format == 1 && result.1@.len() == 1
            && result.1@[0].severity == Severity::Error && result.1@[0].code@
            == "state_invalid"@,
{
    let issues = issue_views(result.1@);
    assert(issues.len() == result.1@.len());
    if loaded is Err {
        assert(issues[0] == result.1@[0]@);
        assert(crate::pack::state::entry_views(result.0.packs@).len() == result.0.packs@.len());
    }
}

/// The pack that is diagnosed is the installed one with the component of the active pack; there is none
/// where no pack is active or its component is not installed.
pub proof fn law_active_packs_are_diagnosed(
    state: &PackState,
    installed: &Vec<InstalledPack>,
    id: &str,
    pack: Option<&InstalledPack>,
)
    requires
        call_ensures(diagnosed, (state, installed, id), pack),
    ensures
        pack is Some <==> (track_of(state@.packs, id@) matches Some(track) && exists|i: int|
            0 <= i < installed@.len() && (#[trigger] installed@[i]).component@
                == track.active.component),
        pack is Some && pack->Some_0.healthy <==> (track_of(state@.packs, id@) matches Some(track)
            && is_usable(installed@, track.active.component)),
{
    if let Some(track) = track_of(state@.packs, id@) {
        lemma_pack_with(installed@, track.active.component);
    }
}

} // verus!
