//! What the model-pack operations answer with.

use vstd::prelude::*;
use vstd::string::*;

use crate::index::IndexHeader;
use crate::names::{contains_text, text_views};
use crate::pack::activation::{borrowed, not_installed};
use crate::pack::command::{ImportMode, Operation};
use crate::pack::doctor::{
    app_check, app_compatibility, index_check, index_compatibility, index_issues, index_view,
    model_check, model_compatibility, runtime_check, runtime_compatibility, runtime_issues,
    trial_view, CheckView, CompatibilityCheck,
};
use crate::pack::error::{coded, PackError, PackErrorView};
use crate::pack::records::{
    BuildInfo, PackMetadata, PackReference, PackTrack, ReferenceView, TrackView,
};
use crate::pack::repair::{find_pack, pack_with};
use crate::pack::scan::{
    any_error, component_manifest, error_issue, expected_view, has_error, installed_views,
    issue_views, manifest_of, warning_issue, InstalledPack, InstalledView, IssueView, PackIssue,
};
use crate::pack::state::{empty_state, track_of, EntryView, PackState, STATE_FORMAT};
use crate::path::{join_path, joined_path};
use crate::text;

verus! {

/// A failed operation, as it is reported.
#[derive(Debug, Clone)]
pub struct FailureReport {
    pub operation: Operation,
    pub format: u32,
    pub ok: bool,
    pub code: String,
    pub message: String,
    pub hint: String,
}

/// Reports a failed operation.
pub fn failure_report(operation: Operation, error: &PackError) -> (report: FailureReport)
    ensures
        report.operation == operation,
        report.format == STATE_FORMAT,
        !report.ok,
        report.message@ == error@.chain(),
        match error@ {
            PackErrorView::Lifecycle(error) => report.code@ == error.code && report.hint@
                == error.hint,
            PackErrorView::Failed(_) => report.code@ == "operation_failed"@ && report.hint@
                == "run the matching status or doctor command for recovery details"@,
        },
{
    let message = error.chain();
    match error {
        PackError::Lifecycle(error) => FailureReport {
            operation,
            format: STATE_FORMAT,
            ok: false,
            code: error.code.clone(),
            message,
            hint: error.hint.clone(),
        },
        PackError::Failed(_) => FailureReport {
            operation,
            format: STATE_FORMAT,
            ok: false,
            code: "operation_failed".to_owned(),
            message,
            hint: "run the matching status or doctor command for recovery details".to_owned(),
        },
    }
}

/// An imported pack.
#[derive(Debug, Clone)]
pub struct InstallReport {
    pub operation: Operation,
    pub format: u32,
    pub id: String,
    pub version: String,
    pub dimensions: usize,
    pub manifest: String,
    pub bytes: u64,
    pub active: PackReference,
    pub previous: Option<PackReference>,
}

/// Reports an imported pack that stands at `destination`.
pub fn install_report(
    mode: ImportMode,
    metadata: &PackMetadata,
    destination: &str,
    track: PackTrack,
) -> (report: InstallReport)
    ensures
        report.operation == mode.spec_operation(),
        report.format == metadata.format,
        report.id@ == metadata.id@,
        report.version@ == metadata.version@,
        report.dimensions == metadata.dimensions,
        report.manifest@ == joined_path(destination@, "semantic-pack.json"@),
        report.bytes == metadata.bytes,
        report.active == track.active,
        report.previous == track.previous,
{
    InstallReport {
        operation: mode.operation(),
        format: metadata.format,
        id: metadata.id.clone(),
        version: metadata.version.clone(),
        dimensions: metadata.dimensions,
        manifest: join_path(destination, "semantic-pack.json"),
        bytes: metadata.bytes,
        active: track.active,
        previous: track.previous,
    }
}

/// The packs of a model directory.
#[derive(Debug, Clone)]
pub struct ListReport {
    pub operation: Operation,
    pub format: u32,
    pub app_version: String,
    pub models_dir: String,
    pub state_written_by: String,
    pub packs: Vec<InstalledPack>,
}

/// Reports the packs of a model directory.
pub fn list(
    models_dir: String,
    state: &PackState,
    installed: Vec<InstalledPack>,
    build: &BuildInfo,
) -> (report: ListReport)
    ensures
        report.operation == Operation::List,
        report.format == STATE_FORMAT,
        report.app_version@ == build.version@,
        report.models_dir == models_dir,
        report.state_written_by@ == state@.written_by,
        report.packs == installed,
{
    ListReport {
        operation: Operation::List,
        format: STATE_FORMAT,
        app_version: build.version.clone(),
        models_dir,
        state_written_by: state.written_by.clone(),
        packs: installed,
    }
}

/// The packs of one id.
#[derive(Debug, Clone)]
pub struct StatusReport {
    pub operation: Operation,
    pub format: u32,
    pub app_version: String,
    pub id: String,
    pub active: Option<PackReference>,
    pub previous: Option<PackReference>,
    pub installed: Vec<InstalledPack>,
}

/// The installed packs that are marked, in the order in which they are listed.
pub open spec fn marked_packs(installed: Seq<InstalledPack>, marks: Seq<bool>) -> Seq<InstalledPack>
    decreases installed.len(),
{
    if installed.len() == 0 {
        Seq::empty()
    } else {
        let earlier = marked_packs(installed.drop_last(), marks.drop_last());
        if marks.last() {
            earlier.push(installed.last())
        } else {
            earlier
        }
    }
}

fn keep_marked(installed: Vec<InstalledPack>, marks: &Vec<bool>) -> (kept: Vec<InstalledPack>)
    requires
        marks@.len() == installed@.len(),
    ensures
        kept@ == marked_packs(installed@, marks@),
{
    let ghost all = installed@;
    let mut rest = installed;
    let mut reversed: Vec<InstalledPack> = Vec::new();
    while rest.len() > 0
        invariant
            rest@.len() <= all.len(),
            rest@ == all.take(rest@.len() as int),
            reversed@ == all.skip(rest@.len() as int).reverse(),
        decreases rest@.len(),
    {
        let ghost length = rest@.len();
        if let Some(pack) = rest.pop() {
            reversed.push(pack);
            assert(rest@ =~= all.take(length - 1));
            assert(reversed@ =~= all.skip(length - 1).reverse());
        }
    }
    let total: usize = marks.len();
    let mut kept: Vec<InstalledPack> = Vec::new();
    let mut position: usize = 0;
    assert(all.skip(0) =~= all);
    assert(all.take(0) =~= Seq::<InstalledPack>::empty());
    while reversed.len() > 0
        invariant
            marks@.len() == all.len() == total,
            position + reversed@.len() == all.len(),
            reversed@ == all.skip(position as int).reverse(),
            kept@ == marked_packs(all.take(position as int), marks@.take(position as int)),
        decreases reversed@.len(),
    {
        if let Some(pack) = reversed.pop() {
            proof {
                assert(pack == all[position as int]);
                assert(all.take(position + 1).drop_last() =~= all.take(position as int));
                assert(marks@.take(position + 1).drop_last() =~= marks@.take(position as int));
                assert(reversed@ =~= all.skip(position + 1).reverse());
            }
            if marks[position] {
                kept.push(pack);
            }
            position = position + 1;
        }
    }
    assert(all.take(all.len() as int) =~= all);
    assert(marks@.take(all.len() as int) =~= marks@);
    kept
}

/// Which installed packs have an id.
pub open spec fn id_marks(installed: Seq<InstalledPack>, id: Seq<char>) -> Seq<bool> {
    installed.map_values(|pack: InstalledPack| pack.id@ == id)
}

/// The installed packs of an id, in the order in which they are listed.
pub open spec fn packs_of(installed: Seq<InstalledPack>, id: Seq<char>) -> Seq<InstalledPack> {
    marked_packs(installed, id_marks(installed, id))
}

fn keep_id(installed: Vec<InstalledPack>, id: &str) -> (kept: Vec<InstalledPack>)
    ensures
        kept@ == packs_of(installed@, id@),
{
    let mut marks: Vec<bool> = Vec::new();
    let mut position: usize = 0;
    while position < installed.len()
        invariant
            position <= installed@.len(),
            marks@ == id_marks(installed@.take(position as int), id@),
        decreases installed@.len() - position,
    {
        marks.push(text::same(installed[position].id.as_str(), id));
        assert(marks@ =~= id_marks(installed@.take(position + 1), id@));
        position = position + 1;
    }
    assert(installed@.take(position as int) =~= installed@);
    keep_marked(installed, &marks)
}

/// Reports the packs of one id.
pub fn status(
    state: &PackState,
    installed: Vec<InstalledPack>,
    id: &str,
    build: &BuildInfo,
) -> (report: Result<StatusReport, PackError>)
    ensures
        match report {
            Ok(report) => {
                &&& packs_of(installed@, id@).len() > 0 || track_of(state@.packs, id@) is Some
                &&& report.operation == Operation::Status
                &&& report.format == STATE_FORMAT
                &&& report.app_version@ == build.version@
                &&& report.id@ == id@
                &&& report.installed@ == packs_of(installed@, id@)
                &&& match track_of(state@.packs, id@) {
                    Some(track) => report.active matches Some(active) && active@ == track.active
                        && crate::pack::records::optional_reference(report.previous)
                        == track.previous,
                    None => report.active is None && report.previous is None,
                }
            },
            Err(error) => {
                &&& packs_of(installed@, id@).len() == 0 && track_of(state@.packs, id@) is None
                &&& error@ == coded(
                    "pack_not_found"@,
                    "no installed model pack has id "@ + id@,
                    "run --list-packs to see installed identities"@,
                )
            },
        },
{
    let kept = keep_id(installed, id);
    let track = match state.track(id) {
        Some(track) => Some(track.copy()),
        None => None,
    };
    if kept.len() == 0 && track.is_none() {
        return Err(
            PackError::coded(
                "pack_not_found",
                text::join("no installed model pack has id ", id).as_str(),
                "run --list-packs to see installed identities",
            ),
        );
    }
    let (active, previous) = match track {
        Some(track) => (Some(track.active), track.previous),
        None => (None, None),
    };
    Ok(
        StatusReport {
            operation: Operation::Status,
            format: STATE_FORMAT,
            app_version: build.version.clone(),
            id: id.to_owned(),
            active,
            previous,
            installed: kept,
        },
    )
}

/// The track whose pack a search uses: that of the given id, or else the only one.
pub open spec fn active_track(packs: Seq<EntryView>, id: Option<Seq<char>>) -> Result<
    TrackView,
    PackErrorView,
> {
    match id {
        Some(id) => match track_of(packs, id) {
            Some(track) => Ok(track),
            None => Err(not_installed(id, "run --list-packs to see active model identities"@)),
        },
        None => if packs.len() == 1 {
            Ok(packs[0].track)
        } else {
            Err(
                coded(
                    "pack_selection_required"@,
                    "active model-pack resolution requires --pack-id when the ledger does not contain exactly one model"@,
                    "pass --pack-id <model-id> or use an explicit --manifest path"@,
                ),
            )
        },
    }
}

/// Finds the manifest of the pack that a search uses.
pub fn active_manifest(models_dir: &str, state: &PackState, id: Option<&str>) -> (manifest: Result<
    String,
    PackError,
>)
    ensures
        match (manifest, active_track(state@.packs, borrowed(id))) {
            (Ok(manifest), Ok(track)) => manifest@ == component_manifest(
                models_dir@,
                track.active.component,
            ),
            (Err(error), Err(expected)) => error@ == expected,
            _ => false,
        },
{
    match id {
        Some(id) => match state.track(id) {
            Some(track) => Ok(manifest_of(models_dir, track.active.component.as_str())),
            None => {
                let message = text::join(
                    text::join("model pack ", id).as_str(),
                    " has no active installation",
                );
                Err(
                    PackError::coded(
                        "pack_not_installed",
                        message.as_str(),
                        "run --list-packs to see active model identities",
                    ),
                )
            },
        },
        None => {
            assert(state@.packs.len() == state.packs@.len());
            if state.packs.len() == 1 {
                let track = &state.packs[0].track;
                assert(state@.packs[0] == state.packs@[0]@);
                Ok(manifest_of(models_dir, track.active.component.as_str()))
            } else {
                Err(
                    PackError::coded(
                        "pack_selection_required",
                        "active model-pack resolution requires --pack-id when the ledger does not contain exactly one model",
                        "pass --pack-id <model-id> or use an explicit --manifest path",
                    ),
                )
            }
        },
    }
}

/// A pack that was exchanged for the one before it.
#[derive(Debug, Clone)]
pub struct RollbackReport {
    pub operation: Operation,
    pub format: u32,
    pub id: String,
    pub active: PackReference,
    pub previous: PackReference,
}

/// Reports the track of an id that was rolled back.
pub fn rollback_report(id: &str, track: PackTrack) -> (report: RollbackReport)
    requires
        track.previous is Some,
    ensures
        report.operation == Operation::Rollback,
        report.format == STATE_FORMAT,
        report.id@ == id@,
        report.active == track.active,
        Some(report.previous) == track.previous,
{
    RollbackReport {
        operation: Operation::Rollback,
        format: STATE_FORMAT,
        id: id.to_owned(),
        active: track.active,
        previous: track.previous.unwrap(),
    }
}

/// A pack that was removed.
#[derive(Debug, Clone)]
pub struct RemoveReport {
    pub operation: Operation,
    pub format: u32,
    pub id: String,
    pub version: String,
    pub component: String,
    pub removed: bool,
}

/// Reports a pack that was removed.
pub fn remove_report(target: &InstalledPack) -> (report: RemoveReport)
    ensures
        report.operation == Operation::Remove,
        report.format == STATE_FORMAT,
        report.id@ == target@.id,
        report.version@ == target@.version,
        report.component@ == target@.component,
        report.removed,
{
    RemoveReport {
        operation: Operation::Remove,
        format: STATE_FORMAT,
        id: target.id.clone(),
        version: target.version.clone(),
        component: target.component.clone(),
        removed: true,
    }
}

/// A ledger that was repaired.
#[derive(Debug, Clone)]
pub struct RepairReport {
    pub operation: Operation,
    pub format: u32,
    pub models_dir: String,
    pub backup: String,
    pub adopted: Vec<PackReference>,
    pub unresolved: Vec<InstalledPack>,
}

/// The components of references.
pub open spec fn reference_components(references: Seq<PackReference>) -> Seq<Seq<char>> {
    references.map_values(|reference: PackReference| reference.component@)
}

/// Which installed packs are not among the components.
pub open spec fn other_marks(installed: Seq<InstalledPack>, components: Seq<Seq<char>>) -> Seq<bool> {
    installed.map_values(|pack: InstalledPack| !components.contains(pack.component@))
}

/// Reports a repaired ledger: the packs that it adopted, and the installed ones that it did not.
pub fn repair_report(
    models_dir: String,
    backup: String,
    adopted: Vec<PackReference>,
    installed: Vec<InstalledPack>,
) -> (report: RepairReport)
    ensures
        report.operation == Operation::Repair,
        report.format == STATE_FORMAT,
        report.models_dir == models_dir,
        report.backup == backup,
        report.adopted == adopted,
        report.unresolved@ == marked_packs(
            installed@,
            other_marks(installed@, reference_components(adopted@)),
        ),
{
    let mut components: Vec<String> = Vec::new();
    let mut position: usize = 0;
    while position < adopted.len()
        invariant
            position <= adopted@.len(),
            text_views(components@) == reference_components(adopted@.take(position as int)),
        decreases adopted@.len() - position,
    {
        let ghost before = text_views(components@);
        components.push(adopted[position].component.clone());
        proof {
            assert(text_views(components@) =~= before.push(adopted@[position as int].component@));
            assert(text_views(components@) =~= reference_components(adopted@.take(position + 1)));
        }
        position = position + 1;
    }
    assert(adopted@.take(position as int) =~= adopted@);
    let ghost wanted = reference_components(adopted@);
    let mut marks: Vec<bool> = Vec::new();
    position = 0;
    while position < installed.len()
        invariant
            position <= installed@.len(),
            text_views(components@) == wanted,
            marks@ == other_marks(installed@.take(position as int), wanted),
        decreases installed@.len() - position,
    {
        marks.push(!contains_text(&components, installed[position].component.as_str()));
        assert(marks@ =~= other_marks(installed@.take(position + 1), wanted));
        position = position + 1;
    }
    assert(installed@.take(position as int) =~= installed@);
    RepairReport {
        operation: Operation::Repair,
        format: STATE_FORMAT,
        models_dir,
        backup,
        adopted,
        unresolved: keep_marked(installed, &marks),
    }
}

/// The files of a model that were deleted.
#[derive(Debug, Clone)]
pub struct RemovalReport {
    pub operation: String,
    pub removed: bool,
    pub manifest: String,
    pub files: usize,
}

/// Reports the deleted files of a model.
pub fn removal_report(manifest: String, files: usize) -> (report: RemovalReport)
    ensures
        report.operation@ == "remove"@,
        report.removed,
        report.manifest == manifest,
        report.files == files,
{
    RemovalReport { operation: "remove".to_owned(), removed: true, manifest, files }
}

/// Whether the active pack of an id can be used.
#[derive(Debug, Clone)]
pub struct DoctorReport {
    pub operation: Operation,
    pub format: u32,
    pub ok: bool,
    pub id: String,
    pub models_dir: String,
    pub checks: Vec<CompatibilityCheck>,
    pub issues: Vec<PackIssue>,
}

/// The ledger that a diagnosis goes by: an empty one where it cannot be read, which is an issue.
pub fn doctor_state(loaded: Result<PackState, String>, build: &BuildInfo) -> (result: (
    PackState,
    Vec<PackIssue>,
))
    ensures
        match loaded {
            Ok(state) => result.0 == state && issue_views(result.1@) == Seq::<IssueView>::empty(),
            Err(error) => result.0@ == empty_state(*build) && issue_views(result.1@) == seq![
                error_issue(
                    "state_invalid"@,
                    "model-pack state cannot be read: "@ + error@,
                    "run --repair-pack-state to back up the corrupt ledger and safely adopt unambiguous healthy packs"@,
                ),
            ],
        },
{
    let mut issues: Vec<PackIssue> = Vec::new();
    match loaded {
        Ok(state) => {
            assert(issue_views(issues@) =~= Seq::<IssueView>::empty());
            (state, issues)
        },
        Err(error) => {
            let message = text::join("model-pack state cannot be read: ", error.as_str());
            let issue = PackIssue::error(
                "state_invalid",
                message.as_str(),
                "run --repair-pack-state to back up the corrupt ledger and safely adopt unambiguous healthy packs",
            );
            issues.push(issue);
            assert(issue_views(issues@) =~= seq![issue@]);
            (PackState::empty(build), issues)
        },
    }
}

/// The installed pack that is diagnosed: the component of the active pack of an id.
pub open spec fn diagnosed_pack(
    packs: Seq<EntryView>,
    installed: Seq<InstalledView>,
    id: Seq<char>,
) -> Option<InstalledView> {
    match track_of(packs, id) {
        Some(track) => pack_with(installed, track.active.component),
        None => None,
    }
}

/// Finds the installed pack that is diagnosed.
pub fn diagnosed<'a>(state: &PackState, installed: &'a Vec<InstalledPack>, id: &str) -> (pack: Option<
    &'a InstalledPack,
>)
    ensures
        match (pack, diagnosed_pack(state@.packs, installed_views(installed@), id@)) {
            (Some(pack), Some(expected)) => pack@ == expected,
            (None, None) => true,
            _ => false,
        },
{
    match state.track(id) {
        Some(track) => find_pack(installed, track.active.component.as_str()),
        None => None,
    }
}

/// The warnings about what unfinished changes left behind.
pub open spec fn stale_issues(paths: Seq<Seq<char>>) -> Seq<IssueView> {
    paths.map_values(
        |path: Seq<char>|
            warning_issue(
                "stale_transaction"@,
                "incomplete transaction remains at "@ + path,
                "a subsequent lifecycle mutation will clean transaction files while holding the lock"@,
            ),
    )
}

/// What is wrong before anything is tried out.
pub open spec fn standing_issues(
    packs: Seq<EntryView>,
    installed: Seq<InstalledView>,
    id: Seq<char>,
    stale: Seq<Seq<char>>,
) -> Seq<IssueView> {
    let missing = match track_of(packs, id) {
        Some(_) => Seq::empty(),
        None => seq![
            error_issue(
                "active_pack_missing"@,
                "model pack "@ + id + " has no explicit active version"@,
                "install the pack or use --install-pack to adopt a single pre-ledger installation"@,
            ),
        ],
    };
    let own = match diagnosed_pack(packs, installed, id) {
        Some(pack) => pack.issues,
        None => Seq::empty(),
    };
    missing + own + stale_issues(stale)
}

fn push_all(issues: &mut Vec<PackIssue>, more: &Vec<PackIssue>)
    ensures
        issue_views(final(issues)@) == issue_views(old(issues)@) + issue_views(more@),
{
    let ghost before = issue_views(issues@);
    let mut position: usize = 0;
    assert(issue_views(issues@) =~= before + issue_views(more@).take(0));
    while position < more.len()
        invariant
            position <= more@.len(),
            issue_views(issues@) == before + issue_views(more@).take(position as int),
        decreases more@.len() - position,
    {
        let ghost earlier = issue_views(issues@);
        issues.push(more[position].copy());
        proof {
            assert(issue_views(issues@) =~= earlier.push(more@[position as int]@));
            assert(issue_views(issues@) =~= before + issue_views(more@).take(position + 1));
        }
        position = position + 1;
    }
    assert(issue_views(more@).take(position as int) =~= issue_views(more@));
}

fn push_stale(issues: &mut Vec<PackIssue>, stale: &Vec<String>)
    ensures
        issue_views(final(issues)@) == issue_views(old(issues)@) + stale_issues(text_views(stale@)),
{
    let ghost before = issue_views(issues@);
    let ghost wanted = stale_issues(text_views(stale@));
    let mut position: usize = 0;
    assert(issue_views(issues@) =~= before + wanted.take(0));
    while position < stale.len()
        invariant
            wanted == stale_issues(text_views(stale@)),
            position <= stale@.len(),
            issue_views(issues@) == before + wanted.take(position as int),
        decreases stale@.len() - position,
    {
        let ghost earlier = issue_views(issues@);
        let message = text::join("incomplete transaction remains at ", stale[position].as_str());
        let issue = PackIssue::warning(
            "stale_transaction",
            message.as_str(),
            "a subsequent lifecycle mutation will clean transaction files while holding the lock",
        );
        issues.push(issue);
        proof {
            assert(text_views(stale@)[position as int] == stale@[position as int]@);
            assert(issue@ == wanted[position as int]);
            assert(issue_views(issues@) =~= earlier.push(issue@));
            assert(issue_views(issues@) =~= before + wanted.take(position + 1));
        }
        position = position + 1;
    }
    assert(wanted.take(position as int) =~= wanted);
}

fn standing(
    state: &PackState,
    installed: &Vec<InstalledPack>,
    id: &str,
    stale: &Vec<String>,
    issues: &mut Vec<PackIssue>,
)
    ensures
        issue_views(final(issues)@) == issue_views(old(issues)@) + standing_issues(
            state@.packs,
            installed_views(installed@),
            id@,
            text_views(stale@),
        ),
{
    let ghost before = issue_views(issues@);
    if state.track(id).is_none() {
        let message = text::join(
            text::join("model pack ", id).as_str(),
            " has no explicit active version",
        );
        let issue = PackIssue::error(
            "active_pack_missing",
            message.as_str(),
            "install the pack or use --install-pack to adopt a single pre-ledger installation",
        );
        issues.push(issue);
        assert(issue_views(issues@) =~= before.push(issue@));
    }
    let ghost first = issue_views(issues@);
    if let Some(pack) = diagnosed(state, installed, id) {
        push_all(issues, &pack.issues);
    }
    push_stale(issues, stale);
    assert(issue_views(issues@) =~= before + standing_issues(
        state@.packs,
        installed_views(installed@),
        id@,
        text_views(stale@),
    ));
}

/// What was found out about the surroundings of a pack that is diagnosed.
#[derive(Debug)]
pub struct DoctorFindings {
    /// What unfinished changes left behind.
    pub stale: Vec<String>,
    /// The path of the runtime.
    pub runtime: String,
    /// The version of the runtime, where its name tells it.
    pub runtime_version: Option<String>,
    /// How loading the models went, where the pack is healthy enough to try.
    pub trial: Option<Result<(), String>>,
    /// The header of the index, or why it cannot be read.
    pub index: Result<IndexHeader, String>,
}

/// The active pack of an id.
pub open spec fn active_reference(packs: Seq<EntryView>, id: Seq<char>) -> Option<ReferenceView> {
    match track_of(packs, id) {
        Some(track) => Some(track.active),
        None => None,
    }
}

/// Everything that is wrong with the active pack of an id, after the issues of reading the ledger.
pub open spec fn doctor_issues(
    packs: Seq<EntryView>,
    installed: Seq<InstalledView>,
    id: Seq<char>,
    findings: DoctorFindings,
) -> Seq<IssueView> {
    let active = active_reference(packs, id);
    standing_issues(packs, installed, id, text_views(findings.stale@)) + runtime_issues(
        active,
        text::optional(findings.runtime_version),
        trial_view(findings.trial),
    ) + index_issues(active, index_view(findings.index))
}

/// Everything that is checked of the active pack of an id.
pub open spec fn doctor_checks(
    packs: Seq<EntryView>,
    installed: Seq<InstalledView>,
    id: Seq<char>,
    findings: DoctorFindings,
    build: BuildInfo,
) -> Seq<CheckView> {
    let active = active_reference(packs, id);
    seq![
        app_check(active, build),
        model_check(id, active, diagnosed_pack(packs, installed, id)),
        runtime_check(
            active,
            findings.runtime@,
            text::optional(findings.runtime_version),
            trial_view(findings.trial),
            build,
        ),
        index_check(id, active, index_view(findings.index)),
    ]
}

/// The values of checks.
pub open spec fn check_views(checks: Seq<CompatibilityCheck>) -> Seq<CheckView> {
    checks.map_values(|check: CompatibilityCheck| check@)
}

/// Whether nothing that was checked is in the way.
pub open spec fn all_compatible(checks: Seq<CheckView>) -> bool {
    forall|i: int| 0 <= i < checks.len() ==> (#[trigger] checks[i]).compatible
}

/// Diagnoses the active pack of an id. `issues` are those of reading the ledger.
pub fn doctor(
    models_dir: String,
    id: &str,
    state: &PackState,
    installed: &Vec<InstalledPack>,
    issues: Vec<PackIssue>,
    findings: &DoctorFindings,
    build: &BuildInfo,
) -> (report: DoctorReport)
    ensures
        report.operation == Operation::Doctor,
        report.format == STATE_FORMAT,
        report.id@ == id@,
        report.models_dir == models_dir,
        issue_views(report.issues@) == issue_views(issues@) + doctor_issues(
            state@.packs,
            installed_views(installed@),
            id@,
            *findings,
        ),
        check_views(report.checks@) == doctor_checks(
            state@.packs,
            installed_views(installed@),
            id@,
            *findings,
            *build,
        ),
        report.ok == (all_compatible(check_views(report.checks@)) && !has_error(
            issue_views(report.issues@),
        )),
{
    let ghost before = issue_views(issues@);
    let mut issues = issues;
    standing(state, installed, id, &findings.stale, &mut issues);
    let active = match state.track(id) {
        Some(track) => Some(track.active.copy()),
        None => None,
    };
    let reference: Option<&PackReference> = match &active {
        Some(active) => Some(active),
        None => None,
    };
    assert(expected_view(reference) == active_reference(state@.packs, id@));
    let app = app_compatibility(reference, build);
    let model = model_compatibility(id, reference, diagnosed(state, installed, id));
    let version = match &findings.runtime_version {
        Some(version) => Some(version.clone()),
        None => None,
    };
    let runtime = runtime_compatibility(
        reference,
        findings.runtime.as_str(),
        version,
        &findings.trial,
        build,
        &mut issues,
    );
    let index = index_compatibility(id, reference, &findings.index, &mut issues);
    assert(issue_views(issues@) =~= before + doctor_issues(
        state@.packs,
        installed_views(installed@),
        id@,
        *findings,
    ));
    let compatible = app.compatible && model.compatible && runtime.compatible && index.compatible;
    let ok = compatible && !any_error(&issues);
    let mut checks: Vec<CompatibilityCheck> = Vec::new();
    checks.push(app);
    checks.push(model);
    checks.push(runtime);
    checks.push(index);
    proof {
        let views = check_views(checks@);
        assert(views =~= seq![app@, model@, runtime@, index@]);
        assert(views[0] == app@ && views[1] == model@ && views[2] == runtime@ && views[3] == index@);
        assert(compatible == (views[0].compatible && views[1].compatible && views[2].compatible
            && views[3].compatible));
        assert forall|i: int| 0 <= i < views.len() && compatible implies (
        #[trigger] views[i]).compatible by {
            assert(i == 0 || i == 1 || i == 2 || i == 3);
        }
        assert(all_compatible(views) == compatible);
    }
    DoctorReport {
        operation: Operation::Doctor,
        format: STATE_FORMAT,
        ok,
        id: id.to_owned(),
        models_dir,
        checks,
        issues,
    }
}

/// What a model-pack operation answers with.
#[derive(Debug, Clone)]
pub enum LifecycleReport {
    Import(InstallReport),
    List(ListReport),
    Status(StatusReport),
    Doctor(DoctorReport),
    Rollback(RollbackReport),
    Remove(RemoveReport),
    RemoveManifest(RemovalReport),
    Repair(RepairReport),
}

impl LifecycleReport {
    /// Whether the program ends as successful: a diagnosis that found something does not.
    pub fn successful(&self) -> (successful: bool)
        ensures
            successful == match self {
                LifecycleReport::Doctor(report) => report.ok,
                _ => true,
            },
    {
        match self {
            LifecycleReport::Doctor(report) => report.ok,
            _ => true,
        }
    }
}

} // verus!
