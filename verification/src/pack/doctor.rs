//! Finding out whether the active pack of a model can be used.

use vstd::prelude::*;
use vstd::string::*;

use crate::index::{HeaderView, IndexHeader};
use crate::names::{manifest_identity, pack_identity};
use crate::pack::records::{copy_optional, BuildInfo, PackReference, ReferenceView};
use crate::pack::scan::{
    error_issue, expected_view, issue_views, warning_issue, InstalledPack, InstalledView, IssueView,
    PackIssue,
};
use crate::path::{file_name, path_file_name};
use crate::text;
use crate::text::decimal_text;

verus! {

/// What is held against what, and whether the two go together.
#[derive(Debug, Clone)]
pub struct CompatibilityCheck {
    pub subject: String,
    pub required: String,
    pub actual: String,
    pub compatible: bool,
    pub detail: String,
}

/// The value of a [`CompatibilityCheck`].
pub struct CheckView {
    pub subject: Seq<char>,
    pub required: Seq<char>,
    pub actual: Seq<char>,
    pub compatible: bool,
    pub detail: Seq<char>,
}

impl View for CompatibilityCheck {
    type V = CheckView;

    open spec fn view(&self) -> CheckView {
        CheckView {
            subject: self.subject@,
            required: self.required@,
            actual: self.actual@,
            compatible: self.compatible,
            detail: self.detail@,
        }
    }
}

/// Whether the formats of the active pack are those that the program knows.
pub open spec fn app_check(active: Option<ReferenceView>, build: BuildInfo) -> CheckView {
    CheckView {
        subject: "app"@,
        required: "Lens model-pack state 1 and semantic manifest format 1"@,
        actual: match active {
            None => "skwd-lens "@ + build.version@ + " (no active pack)"@,
            Some(reference) => "skwd-lens "@ + build.version@ + "; installed by "@
                + reference.installed_by + "; pack format "@ + decimal_text(
                reference.format as nat,
            ),
        },
        compatible: active matches Some(reference) && reference.format == 1,
        detail: "app compatibility is governed by state and manifest formats"@,
    }
}

/// Checks the formats of the active pack.
pub fn app_compatibility(active: Option<&PackReference>, build: &BuildInfo) -> (check:
    CompatibilityCheck)
    ensures
        check@ == app_check(expected_view(active), *build),
{
    let program = text::join("skwd-lens ", build.version.as_str());
    let actual = match active {
        None => text::join(program.as_str(), " (no active pack)"),
        Some(reference) => {
            let installer = text::join(
                text::join(program.as_str(), "; installed by ").as_str(),
                reference.installed_by.as_str(),
            );
            text::join(
                text::join(installer.as_str(), "; pack format ").as_str(),
                text::decimal(reference.format as u64).as_str(),
            )
        },
    };
    let compatible = match active {
        Some(reference) => reference.format == 1,
        None => false,
    };
    CompatibilityCheck {
        subject: "app".to_owned(),
        required: "Lens model-pack state 1 and semantic manifest format 1".to_owned(),
        actual,
        compatible,
        detail: "app compatibility is governed by state and manifest formats".to_owned(),
    }
}

/// A model identity with the size of its embeddings.
pub open spec fn sized_identity(identity: Seq<char>, dimensions: nat) -> Seq<char> {
    identity + " ("@ + decimal_text(dimensions) + " dimensions)"@
}

fn describe_sized(identity: &str, dimensions: u64) -> (described: String)
    ensures
        described@ == sized_identity(identity@, dimensions as nat),
{
    let opened = text::join(identity, " (");
    text::join(
        text::join(opened.as_str(), text::decimal(dimensions).as_str()).as_str(),
        " dimensions)",
    )
}

/// The value of an installed pack that may be missing.
pub open spec fn shown_pack(pack: Option<&InstalledPack>) -> Option<InstalledView> {
    match pack {
        Some(pack) => Some(pack@),
        None => None,
    }
}

/// Whether the active pack is installed and healthy.
pub open spec fn model_check(
    id: Seq<char>,
    active: Option<ReferenceView>,
    installed: Option<InstalledView>,
) -> CheckView {
    CheckView {
        subject: "model"@,
        required: match active {
            None => id,
            Some(reference) => sized_identity(
                pack_identity(reference.id, reference.version),
                reference.dimensions as nat,
            ),
        },
        actual: match installed {
            None => "missing"@,
            Some(pack) => sized_identity(
                pack_identity(pack.id, pack.version),
                pack.dimensions as nat,
            ),
        },
        compatible: installed matches Some(pack) && pack.healthy,
        detail: "the active manifest identity and embedding width must match state"@,
    }
}

/// Checks that the active pack is installed and healthy.
pub fn model_compatibility(
    id: &str,
    active: Option<&PackReference>,
    installed: Option<&InstalledPack>,
) -> (check: CompatibilityCheck)
    ensures
        check@ == model_check(id@, expected_view(active), shown_pack(installed)),
{
    let required = match active {
        None => id.to_owned(),
        Some(reference) => describe_sized(
            manifest_identity(reference.id.as_str(), reference.version.as_str()).as_str(),
            reference.dimensions as u64,
        ),
    };
    let actual = match installed {
        None => "missing".to_owned(),
        Some(pack) => describe_sized(
            manifest_identity(pack.id.as_str(), pack.version.as_str()).as_str(),
            pack.dimensions as u64,
        ),
    };
    let compatible = match installed {
        Some(pack) => pack.healthy,
        None => false,
    };
    CompatibilityCheck {
        subject: "model".to_owned(),
        required,
        actual,
        compatible,
        detail: "the active manifest identity and embedding width must match state".to_owned(),
    }
}

/// The version that the file name of a runtime library ends with.
pub open spec fn library_version(path: Seq<char>) -> Option<Seq<char>> {
    match path_file_name(path) {
        None => None,
        Some(name) => if text::begins_with(name, "libonnxruntime.so."@) {
            Some(name.skip("libonnxruntime.so."@.len() as int))
        } else {
            None
        },
    }
}

/// The version that the file name of a runtime library ends with, if it does.
pub fn detected_runtime_version(path: &str) -> (version: Option<String>)
    ensures
        text::optional(version) == library_version(path@),
{
    match file_name(path) {
        Some(name) => text::strip_prefix(name.as_str(), "libonnxruntime.so."),
        None => None,
    }
}

/// The value of a trial to load the models: nothing where it was not made.
pub open spec fn trial_view(trial: Option<Result<(), String>>) -> Option<Result<(), Seq<char>>> {
    match trial {
        None => None,
        Some(Ok(_)) => Some(Ok(())),
        Some(Err(error)) => Some(Err(error@)),
    }
}

/// Whether the runtime loads the models. `version` is that of the chosen runtime, `trial` how
/// loading went.
pub open spec fn runtime_check(
    active: Option<ReferenceView>,
    runtime: Seq<char>,
    version: Option<Seq<char>>,
    trial: Option<Result<(), Seq<char>>>,
    build: BuildInfo,
) -> CheckView {
    let api = "ONNX Runtime API >= 1."@ + decimal_text(build.runtime_api_minor as nat) + ".x"@;
    CheckView {
        subject: "runtime"@,
        required: match recorded_version(active) {
            None => api,
            Some(recorded) => api + "; installed with "@ + recorded,
        },
        actual: match version {
            Some(version) => version,
            None => runtime,
        },
        compatible: trial matches Some(Ok(_)),
        detail: "doctor loads both CPU model sessions and validates their I/O names"@,
    }
}

/// The runtime version that the active pack was installed with.
pub open spec fn recorded_version(active: Option<ReferenceView>) -> Option<Seq<char>> {
    match active {
        Some(reference) => reference.runtime_version,
        None => None,
    }
}

/// What is wrong with the runtime.
pub open spec fn runtime_issues(
    active: Option<ReferenceView>,
    version: Option<Seq<char>>,
    trial: Option<Result<(), Seq<char>>>,
) -> Seq<IssueView> {
    let changed = match (recorded_version(active), version) {
        (Some(recorded), Some(selected)) => if recorded != selected {
            seq![
                warning_issue(
                    "runtime_version_changed"@,
                    "pack was installed with ONNX Runtime "@ + recorded
                        + ", but doctor selected "@ + selected,
                    "use the packaged runtime for reproducibility; doctor still proves compatibility by loading the models"@,
                ),
            ]
        } else {
            Seq::empty()
        },
        _ => Seq::empty(),
    };
    match trial {
        Some(Err(error)) => changed.push(
            error_issue(
                "runtime_incompatible"@,
                "active pack cannot load with the selected runtime: "@ + error,
                "select the packaged CPU runtime or install a pack built for this runtime API"@,
            ),
        ),
        _ => changed,
    }
}

fn push_issue(issues: &mut Vec<PackIssue>, issue: PackIssue)
    ensures
        issue_views(final(issues)@) == issue_views(old(issues)@).push(issue@),
{
    let ghost before = issue_views(issues@);
    issues.push(issue);
    assert(issue_views(issues@) =~= before.push(issue@));
}

/// Checks that the runtime loads the models, and adds what is wrong with it to the issues.
pub fn runtime_compatibility(
    active: Option<&PackReference>,
    runtime: &str,
    version: Option<String>,
    trial: &Option<Result<(), String>>,
    build: &BuildInfo,
    issues: &mut Vec<PackIssue>,
) -> (check: CompatibilityCheck)
    ensures
        check@ == runtime_check(
            expected_view(active),
            runtime@,
            text::optional(version),
            trial_view(*trial),
            *build,
        ),
        issue_views(final(issues)@) == issue_views(old(issues)@) + runtime_issues(
            expected_view(active),
            text::optional(version),
            trial_view(*trial),
        ),
{
    let recorded = match active {
        Some(reference) => copy_optional(&reference.runtime_version),
        None => None,
    };
    let ghost before = issue_views(issues@);
    if let (Some(recorded), Some(selected)) = (&recorded, &version) {
        if !text::same(recorded.as_str(), selected.as_str()) {
            let installed = text::join(
                text::join("pack was installed with ONNX Runtime ", recorded.as_str()).as_str(),
                ", but doctor selected ",
            );
            let issue = PackIssue::warning(
                "runtime_version_changed",
                text::join(installed.as_str(), selected.as_str()).as_str(),
                "use the packaged runtime for reproducibility; doctor still proves compatibility by loading the models",
            );
            push_issue(issues, issue);
        }
    }
    let ghost first = issue_views(issues@);
    if let Some(Err(error)) = trial {
        let message = text::join(
            "active pack cannot load with the selected runtime: ",
            error.as_str(),
        );
        let issue = PackIssue::error(
            "runtime_incompatible",
            message.as_str(),
            "select the packaged CPU runtime or install a pack built for this runtime API",
        );
        push_issue(issues, issue);
    }
    proof {
        let added = runtime_issues(
            expected_view(active),
            text::optional(version),
            trial_view(*trial),
        );
        assert(issue_views(issues@) =~= before + added);
    }
    let minor = text::join(
        "ONNX Runtime API >= 1.",
        text::decimal(build.runtime_api_minor as u64).as_str(),
    );
    let api = text::join(minor.as_str(), ".x");
    let required = match &recorded {
        None => api,
        Some(recorded) => text::join(
            text::join(api.as_str(), "; installed with ").as_str(),
            recorded.as_str(),
        ),
    };
    let compatible = match trial {
        Some(Ok(_)) => true,
        _ => false,
    };
    let actual = match version {
        Some(version) => version,
        None => runtime.to_owned(),
    };
    CompatibilityCheck {
        subject: "runtime".to_owned(),
        required,
        actual,
        compatible,
        detail: "doctor loads both CPU model sessions and validates their I/O names".to_owned(),
    }
}

/// The value of an index header, or of why there is none.
pub open spec fn index_view(index: Result<IndexHeader, String>) -> Result<HeaderView, Seq<char>> {
    match index {
        Ok(header) => Ok(header@),
        Err(error) => Err(error@),
    }
}

/// Whether an index was made with a pack.
pub open spec fn index_matches(
    active: Option<ReferenceView>,
    index: Result<HeaderView, Seq<char>>,
) -> bool {
    match (active, index) {
        (Some(reference), Ok(header)) => pack_identity(reference.id, reference.version)
            == header.model && reference.dimensions == header.dimensions,
        _ => false,
    }
}

/// What an index says of itself.
pub open spec fn described_index(index: Result<HeaderView, Seq<char>>) -> Seq<char> {
    match index {
        Ok(header) => sized_identity(header.model, header.dimensions as nat),
        Err(error) => "unreadable: "@ + error,
    }
}

/// Whether the index was made with the active pack.
pub open spec fn index_check(
    id: Seq<char>,
    active: Option<ReferenceView>,
    index: Result<HeaderView, Seq<char>>,
) -> CheckView {
    CheckView {
        subject: "index"@,
        required: "SKWDSEM3 "@ + match active {
            Some(reference) => sized_identity(
                pack_identity(reference.id, reference.version),
                reference.dimensions as nat,
            ),
            None => sized_identity(id, 0),
        },
        actual: match index {
            Ok(header) => "SKWDSEM3 "@ + described_index(index),
            Err(_) => described_index(index),
        },
        compatible: index_matches(active, index),
        detail: "index format, model identity, and embedding width are checked together"@,
    }
}

/// What is wrong with the index.
pub open spec fn index_issues(
    active: Option<ReferenceView>,
    index: Result<HeaderView, Seq<char>>,
) -> Seq<IssueView> {
    if index_matches(active, index) {
        Seq::empty()
    } else {
        seq![
            error_issue(
                "index_incompatible"@,
                "semantic index is incompatible: "@ + described_index(index),
                "rebuild the SKWDSEM3 index with the active model pack before searching"@,
            ),
        ]
    }
}

/// Checks that the index was made with the active pack, and adds what is wrong with it to the
/// issues.
pub fn index_compatibility(
    id: &str,
    active: Option<&PackReference>,
    index: &Result<IndexHeader, String>,
    issues: &mut Vec<PackIssue>,
) -> (check: CompatibilityCheck)
    ensures
        check@ == index_check(id@, expected_view(active), index_view(*index)),
        issue_views(final(issues)@) == issue_views(old(issues)@) + index_issues(
            expected_view(active),
            index_view(*index),
        ),
{
    let compatible = match (active, index) {
        (Some(reference), Ok(header)) => text::same(
            manifest_identity(reference.id.as_str(), reference.version.as_str()).as_str(),
            header.model.as_str(),
        ) && reference.dimensions == header.dimensions as usize,
        _ => false,
    };
    let described = match index {
        Ok(header) => describe_sized(header.model.as_str(), header.dimensions as u64),
        Err(error) => text::join("unreadable: ", error.as_str()),
    };
    let ghost before = issue_views(issues@);
    if !compatible {
        let message = text::join("semantic index is incompatible: ", described.as_str());
        let issue = PackIssue::error(
            "index_incompatible",
            message.as_str(),
            "rebuild the SKWDSEM3 index with the active model pack before searching",
        );
        push_issue(issues, issue);
    }
    assert(issue_views(issues@) =~= before + index_issues(expected_view(active), index_view(*index)));
    let wanted = match active {
        Some(reference) => describe_sized(
            manifest_identity(reference.id.as_str(), reference.version.as_str()).as_str(),
            reference.dimensions as u64,
        ),
        None => describe_sized(id, 0),
    };
    let actual = match index {
        Ok(_) => text::join("SKWDSEM3 ", described.as_str()),
        Err(_) => described,
    };
    CompatibilityCheck {
        subject: "index".to_owned(),
        required: text::join("SKWDSEM3 ", wanted.as_str()),
        actual,
        compatible,
        detail: "index format, model identity, and embedding width are checked together".to_owned(),
    }
}

} // verus!
