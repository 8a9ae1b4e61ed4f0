//! When an installed pack counts as healthy, and what is said of it.

use vstd::prelude::*;
use vstd::string::*;

use crate::index::IndexHeader;
use crate::pack::doctor::{
    app_compatibility, detected_runtime_version, index_compatibility, model_compatibility,
    runtime_compatibility, runtime_issues, CompatibilityCheck,
};
use crate::pack::records::{
    file_views, BuildInfo, PackFileDigest, PackMetadata, PackReference, ReferenceView,
};
use crate::pack::scan::{
    any_error, changed_issue, found_issues, identity_issue, invalid_issue, is_component_entry,
    issue_views, manifest_of, scanned_pack, unrecorded_issue, InstalledPack, PackIssue, PackRole,
    Severity,
};
use crate::path::{file_name, join_path};
use crate::text::decimal_text;

verus! {

/// Whether two lists of files are the same: the same paths, sizes and digests in the same order.
pub open spec fn are_same_files(left: Seq<PackFileDigest>, right: Seq<PackFileDigest>) -> bool {
    &&& left.len() == right.len()
    &&& forall|i: int|
        0 <= i < left.len() ==> (#[trigger] left[i]).path@ == right[i].path@ && left[i].bytes
            == right[i].bytes && left[i].sha256@ == right[i].sha256@
}

/// When the values of files are the same.
pub proof fn lemma_same_files(left: Seq<PackFileDigest>, right: Seq<PackFileDigest>)
    ensures
        file_views(left) == file_views(right) <==> are_same_files(left, right),
{
    let first = file_views(left);
    let second = file_views(right);
    assert(first.len() == left.len() && second.len() == right.len());
    if first == second {
        assert forall|i: int| 0 <= i < left.len() implies (#[trigger] left[i]).path@
            == right[i].path@ && left[i].bytes == right[i].bytes && left[i].sha256@
            == right[i].sha256@ by {
            assert(first[i] == left[i]@);
            assert(second[i] == right[i]@);
        }
    }
    if are_same_files(left, right) {
        assert forall|i: int| 0 <= i < first.len() implies first[i] == second[i] by {
            assert(first[i] == left[i]@);
            assert(second[i] == right[i]@);
        }
        assert(first =~= second);
    }
}

/// Whether a pack that can be read is the one that a reference is about.
pub open spec fn is_pack_of(reference: PackReference, metadata: PackMetadata) -> bool {
    &&& reference.id@ == metadata.id@
    &&& reference.version@ == metadata.version@
    &&& reference.format == metadata.format
    &&& reference.dimensions == metadata.dimensions
}

/// Whether one of the issues is an error with a code.
pub open spec fn is_reported(issues: Seq<PackIssue>, code: Seq<char>) -> bool {
    exists|i: int|
        0 <= i < issues.len() && (#[trigger] issues[i]).code@ == code && issues[i].severity
            == Severity::Error
}

proof fn lemma_codes()
    ensures
        "state_manifest_mismatch"@ != "pack_integrity_unrecorded"@,
        "state_manifest_mismatch"@ != "pack_integrity_changed"@,
        "state_manifest_mismatch"@ != "pack_invalid"@,
        "pack_integrity_unrecorded"@ != "pack_integrity_changed"@,
        "pack_integrity_unrecorded"@ != "pack_invalid"@,
        "pack_integrity_changed"@ != "pack_invalid"@,
{
    reveal_strlit("state_manifest_mismatch");
    reveal_strlit("pack_integrity_unrecorded");
    reveal_strlit("pack_integrity_changed");
    reveal_strlit("pack_invalid");
    assert("state_manifest_mismatch"@[0] == 's');
    assert("pack_integrity_unrecorded"@[0] == 'p');
    assert("pack_integrity_changed"@[0] == 'p');
    assert("pack_invalid"@[0] == 'p');
    assert("pack_integrity_unrecorded"@.len() == 25);
    assert("pack_integrity_changed"@.len() == 22);
    assert("pack_invalid"@.len() == 12);
}

/// A component of the ledger is healthy if and only if it can be read, is the pack that was recorded, and
/// its files were recorded and are still the same; a component that the ledger does not know, if and only
/// if it can be read. What is wrong is reported, and nothing else is: a pack that cannot be read, another
/// pack, files that were not recorded, files that changed. The component is listed under its own name,
/// with what was found in it, or else with what was recorded.
pub proof fn law_healthy_packs_are_unchanged(
    component: String,
    manifest: String,
    role: PackRole,
    expected: Option<&PackReference>,
    found: Result<PackMetadata, String>,
    pack: InstalledPack,
)
    requires
        call_ensures(scanned_pack, (component, manifest, role, expected, found), pack),
    ensures
        pack.component@ == component@ && pack.manifest@ == manifest@ && pack.role == role,
        pack.healthy <==> found is Ok && (expected matches Some(reference) ==> is_pack_of(
            *reference,
            found->Ok_0,
        ) && reference.files@.len() > 0 && are_same_files(
            reference.files@,
            found->Ok_0.files@,
        )),
        pack.healthy <==> pack.issues@.len() == 0,
        is_reported(pack.issues@, "pack_invalid"@) <==> found is Err,
        is_reported(pack.issues@, "state_manifest_mismatch"@) <==> found is Ok && (
        expected matches Some(reference) && !is_pack_of(*reference, found->Ok_0)),
        is_reported(pack.issues@, "pack_integrity_unrecorded"@) <==> found is Ok && (
        expected matches Some(reference) && reference.files@.len() == 0),
        is_reported(pack.issues@, "pack_integrity_changed"@) <==> found is Ok && (
        expected matches Some(reference) && reference.files@.len() > 0 && !are_same_files(
            reference.files@,
            found->Ok_0.files@,
        )),
        found matches Ok(metadata) ==> pack.id@ == metadata.id@ && pack.version@
            == metadata.version@ && pack.format == metadata.format && pack.dimensions
            == metadata.dimensions && pack.bytes == metadata.bytes && are_same_files(
            pack.files@,
            metadata.files@,
        ),
        found is Err ==> (expected matches Some(reference) ==> pack.id@ == reference.id@
            && pack.version@ == reference.version@ && pack.bytes == reference.bytes
            && are_same_files(pack.files@, reference.files@)),
        found is Err && expected is None ==> pack.id@.len() == 0 && pack.version@.len() == 0
            && pack.files@.len() == 0,
{
    lemma_codes();
    let issues = issue_views(pack.issues@);
    assert(issues.len() == pack.issues@.len());
    assert forall|i: int| 0 <= i < issues.len() implies issues[i] == (
    #[trigger] pack.issues@[i])@ by {
    }
    match found {
        Ok(metadata) => {
            lemma_same_files(pack.files@, metadata.files@);
            if let Some(reference) = expected {
                lemma_same_files(reference.files@, metadata.files@);
                assert(file_views(reference.files@).len() == reference.files@.len());
                let own = found_issues(component@, Some(reference@), metadata@);
                assert(issues == own);
                if !is_pack_of(*reference, metadata) {
                    assert(own[0] == identity_issue(component@));
                    assert(issues[0].severity == Severity::Error);
                    assert(pack.issues@[0]@ == issues[0]);
                }
                if own.len() > 0 {
                    assert(pack.issues@[own.len() - 1]@ == issues[own.len() - 1]);
                    assert(issues[own.len() - 1].severity == Severity::Error);
                }
                assert forall|i: int| 0 <= i < own.len() implies (#[trigger] own[i])
                    == identity_issue(component@) || own[i] == unrecorded_issue(component@)
                    || own[i] == changed_issue(component@, metadata.bytes, reference.bytes) by {
                }
            } else {
                assert(issues.len() == 0);
            }
        },
        Err(error) => {
            assert(issues[0] == invalid_issue(component@, error@));
            assert(pack.issues@[0]@ == issues[0]);
            if let Some(reference) = expected {
                lemma_same_files(pack.files@, reference.files@);
            } else {
                assert(file_views(pack.files@).len() == pack.files@.len());
            }
        },
    }
}

/// An entry of the model directory is listed if and only if it is a directory, no link, has a manifest, and
/// its name does not begin with a dot.
pub proof fn law_components_are_listed(
    name: &str,
    is_directory: bool,
    is_symlink: bool,
    has_manifest: bool,
    listed: bool,
)
    requires
        call_ensures(is_component_entry, (name, is_directory, is_symlink, has_manifest), listed),
    ensures
        listed <==> is_directory && !is_symlink && has_manifest && (name@.len() > 0 ==> name@[0]
            != '.'),
{
}

/// Issues keep a pack from being used if and only if one of them is an error.
pub proof fn law_errors_are_found(issues: &Vec<PackIssue>, found: bool)
    requires
        call_ensures(any_error, (issues,), found),
    ensures
        found <==> exists|i: int|
            0 <= i < issues@.len() && (#[trigger] issues@[i]).severity == Severity::Error,
{
    let views = issue_views(issues@);
    if found {
        let i = choose|i: int|
            0 <= i < views.len() && (#[trigger] views[i]).severity == Severity::Error;
        assert(issues@[i]@ == views[i]);
    }
    if exists|i: int|
        0 <= i < issues@.len() && (#[trigger] issues@[i]).severity == Severity::Error {
        let i = choose|i: int|
            0 <= i < issues@.len() && (#[trigger] issues@[i]).severity == Severity::Error;
        assert(views[i] == issues@[i]@);
    }
}

/// The manifest of a component stands in the component's directory below the model directory.
pub proof fn law_manifests_stand_in_their_component(
    models_dir: &str,
    component: &str,
    manifest: String,
    directory: String,
    directory_text: &str,
    name: &str,
    joined: String,
)
    requires
        call_ensures(manifest_of, (models_dir, component), manifest),
        call_ensures(join_path, (models_dir, component), directory),
        directory_text@ == directory@,
        name@ == "semantic-pack.json"@,
        call_ensures(join_path, (directory_text, name), joined),
    ensures
        manifest@ == joined@,
{
}

/// The active pack can be used by the program if and only if there is one and its format is the known one;
/// with its models, if and only if it is installed and healthy.
pub proof fn law_checks_of_the_active_pack(
    id: &str,
    active: Option<&PackReference>,
    installed: Option<&InstalledPack>,
    build: &BuildInfo,
    app: CompatibilityCheck,
    model: CompatibilityCheck,
)
    requires
        call_ensures(app_compatibility, (active, build), app),
        call_ensures(model_compatibility, (id, active, installed), model),
    ensures
        app.compatible <==> (active matches Some(reference) && reference.format == 1),
        model.compatible <==> (installed matches Some(pack) && pack.healthy),
{
}

/// The version of a runtime is what its file is called behind `libonnxruntime.so.`, and not known of any
/// other file.
pub proof fn law_runtime_versions_are_told_by_names(
    path: &str,
    version: Option<String>,
    name: Option<String>,
)
    requires
        call_ensures(detected_runtime_version, (path,), version),
        call_ensures(file_name, (path,), name),
    ensures
        version matches Some(version) ==> (name matches Some(name) && name@
            == "libonnxruntime.so."@ + version@),
        name matches Some(name) ==> forall|tail: Seq<char>|
            name@ == #[trigger] ("libonnxruntime.so."@ + tail) ==> (version matches Some(version)
                && version@ == tail),
        name is None ==> version is None,
{
    let front = "libonnxruntime.so."@;
    if let Some(name) = name {
        if let Some(version) = version {
            assert(name@ =~= front + version@);
        }
        assert forall|tail: Seq<char>| name@ == #[trigger] (front + tail) implies (
        version matches Some(version) && version@ == tail) by {
            assert(name@.take(front.len() as int) =~= front);
            assert(name@.skip(front.len() as int) =~= tail);
        }
    }
}

/// A runtime is warned about if and only if it has another version than the one that the pack was installed
/// with, both known; it is an error if and only if the models did not load.
pub proof fn law_runtimes_are_held_against_the_record(
    active: Option<ReferenceView>,
    version: Option<Seq<char>>,
    trial: Option<Result<(), Seq<char>>>,
)
    ensures
        ({
            let issues = runtime_issues(active, version, trial);
            let changed = active matches Some(reference) && (
            reference.runtime_version matches Some(recorded) && version is Some && version
                != Some(recorded));
            &&& issues.len() == (if changed {
                1int
            } else {
                0
            }) + (if trial matches Some(Err(_)) {
                1int
            } else {
                0
            })
            &&& changed ==> issues[0].severity == Severity::Warning && issues[0].code
                == "runtime_version_changed"@
            &&& trial matches Some(Err(_)) ==> issues.last().severity == Severity::Error
                && issues.last().code == "runtime_incompatible"@
        }),
{
}

/// How a pack is shown: its id, its version and the size of its embeddings.
pub open spec fn shown_identity(id: Seq<char>, version: Seq<char>, dimensions: nat) -> Seq<char> {
    id + seq!['@'] + version + " ("@ + decimal_text(dimensions) + " dimensions)"@
}

/// A check shows what is wanted beside what is there: of the model, the recorded pack beside the installed
/// one; of the program, the formats that it knows beside its version and the format of the pack.
pub proof fn law_checks_show_what_is_wanted(
    id: &str,
    active: Option<&PackReference>,
    installed: Option<&InstalledPack>,
    build: &BuildInfo,
    app: CompatibilityCheck,
    model: CompatibilityCheck,
)
    requires
        call_ensures(app_compatibility, (active, build), app),
        call_ensures(model_compatibility, (id, active, installed), model),
    ensures
        app.subject@ == "app"@ && model.subject@ == "model"@,
        app.required@ == "Lens model-pack state 1 and semantic manifest format 1"@,
        active is None ==> app.actual@ == "skwd-lens "@ + build.version@ + " (no active pack)"@,
        active matches Some(reference) ==> app.actual@ == "skwd-lens "@ + build.version@
            + "; installed by "@ + reference.installed_by@ + "; pack format "@ + decimal_text(
            reference.format as nat,
        ),
        active is None ==> model.required@ == id@,
        active matches Some(reference) ==> model.required@ == shown_identity(
            reference.id@,
            reference.version@,
            reference.dimensions as nat,
        ),
        installed is None ==> model.actual@ == "missing"@,
        installed matches Some(pack) ==> model.actual@ == shown_identity(
            pack.id@,
            pack.version@,
            pack.dimensions as nat,
        ),
{
    reveal_strlit("@");
    assert("@"@ =~= seq!['@']);
}

/// The check of the index shows the recorded pack beside the model of the index, or why that cannot be
/// read; the check of the runtime shows the version that is wanted beside the one that was found.
pub proof fn law_checks_show_what_is_there(
    id: &str,
    active: Option<&PackReference>,
    index: &Result<IndexHeader, String>,
    runtime: &str,
    version: Option<String>,
    trial: &Option<Result<(), String>>,
    build: &BuildInfo,
)
    ensures
        forall|issues: &mut Vec<PackIssue>, check: CompatibilityCheck| #[trigger]
            call_ensures(index_compatibility, (id, active, index, issues), check) ==> {
                &&& check.subject@ == "index"@
                &&& active matches Some(reference) ==> check.required@ == "SKWDSEM3 "@
                    + shown_identity(
                    reference.id@,
                    reference.version@,
                    reference.dimensions as nat,
                )
                &&& *index matches Ok(header) ==> check.actual@ == "SKWDSEM3 "@ + header.model@
                    + " ("@ + decimal_text(header.dimensions as nat) + " dimensions)"@
                &&& *index matches Err(error) ==> check.actual@ == "unreadable: "@ + error@
            },
        forall|issues: &mut Vec<PackIssue>, check: CompatibilityCheck| #[trigger]
            call_ensures(
                runtime_compatibility,
                (active, runtime, version, trial, build, issues),
                check,
            ) ==> {
                let wanted = "ONNX Runtime API >= 1."@ + decimal_text(
                    build.runtime_api_minor as nat,
                ) + ".x"@;
                &&& check.subject@ == "runtime"@
                &&& version matches Some(version) ==> check.actual@ == version@
                &&& version is None ==> check.actual@ == runtime@
                &&& (active matches Some(reference) ==> reference.runtime_version is None)
                    ==> check.required@ == wanted
                &&& active matches Some(reference) ==> (
                reference.runtime_version matches Some(recorded) ==> check.required@ == wanted
                    + "; installed with "@ + recorded@)
            },
{
    reveal_strlit("@");
    assert("@"@ =~= seq!['@']);
    assert forall|issues: &mut Vec<PackIssue>, check: CompatibilityCheck| #[trigger]
        call_ensures(index_compatibility, (id, active, index, issues), check) implies {
        &&& check.subject@ == "index"@
        &&& active matches Some(reference) ==> check.required@ == "SKWDSEM3 "@ + shown_identity(
            reference.id@,
            reference.version@,
            reference.dimensions as nat,
        )
        &&& *index matches Ok(header) ==> check.actual@ == "SKWDSEM3 "@ + header.model@ + " ("@
            + decimal_text(header.dimensions as nat) + " dimensions)"@
        &&& *index matches Err(error) ==> check.actual@ == "unreadable: "@ + error@
    } by {
        if let Ok(header) = *index {
            assert("SKWDSEM3 "@ + (header.model@ + " ("@ + decimal_text(header.dimensions as nat)
                + " dimensions)"@) =~= "SKWDSEM3 "@ + header.model@ + " ("@ + decimal_text(
                header.dimensions as nat,
            ) + " dimensions)"@);
        }
    }
}

} // verus!
