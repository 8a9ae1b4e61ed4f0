//! What a diagnosis comes to.

use vstd::prelude::*;
use vstd::string::*;

use crate::index::IndexHeader;
use crate::pack::doctor::{index_check, index_issues, index_view};
use crate::pack::records::{BuildInfo, PackReference, ReferenceView};
use crate::pack::repair::pack_with;
use crate::pack::report::{
    check_views, doctor, doctor_checks, doctor_issues, DoctorFindings, DoctorReport,
};
use crate::pack::scan::{
    expected_view, installed_views, issue_views, InstalledPack, InstalledView, PackIssue, Severity,
};
use crate::pack::state::{track_of, EntryView, PackState};

verus! {

/// Whether an index was made with a pack: it can be read, its model is the pack's id, an `@` and the
/// pack's version, and its embeddings have the pack's size.
pub open spec fn is_index_of(
    active: Option<ReferenceView>,
    index: Result<IndexHeader, String>,
) -> bool {
    match (active, index) {
        (Some(reference), Ok(header)) => header.model@ == reference.id + seq!['@']
            + reference.version && header.dimensions == reference.dimensions,
        _ => false,
    }
}

/// The index goes together with the active pack if and only if it was made with it; otherwise that is
/// an error, and the only one that is added.
pub proof fn law_index_needs_its_pack(
    id: &str,
    active: Option<&PackReference>,
    index: &Result<IndexHeader, String>,
)
    ensures
        index_check(id@, expected_view(active), index_view(*index)).compatible <==> is_index_of(
            match active {
                Some(reference) => Some(reference@),
                None => None,
            },
            *index,
        ),
        ({
            let issues = index_issues(expected_view(active), index_view(*index));
            if is_index_of(
                match active {
                    Some(reference) => Some(reference@),
                    None => None,
                },
                *index,
            ) {
                issues.len() == 0
            } else {
                issues.len() == 1 && issues[0].severity == Severity::Error && issues[0].code
                    == "index_incompatible"@
            }
        }),
{
    reveal_strlit("@");
    assert("@"@ =~= seq!['@']);
}

/// Whether the first installed pack with a component is healthy.
pub open spec fn is_usable(installed: Seq<InstalledPack>, component: Seq<char>) -> bool {
    exists|i: int|
        {
            &&& 0 <= i < installed.len()
            &&& (#[trigger] installed[i]).component@ == component
            &&& installed[i].healthy
            &&& forall|j: int| 0 <= j < i ==> (#[trigger] installed[j]).component@ != component
        }
}

/// What the first installed pack with a component is, in terms of the list.
pub proof fn lemma_pack_with(installed: Seq<InstalledPack>, component: Seq<char>)
    ensures
        (pack_with(installed_views(installed), component) matches Some(pack) && pack.healthy)
            <==> is_usable(installed, component),
        pack_with(installed_views(installed), component) is Some <==> exists|i: int|
            0 <= i < installed.len() && (#[trigger] installed[i]).component@ == component,
    decreases installed.len(),
{
    let views = installed_views(installed);
    if installed.len() > 0 {
        assert(views[0] == installed[0]@);
        let rest = installed.drop_first();
        assert(views.drop_first() =~= installed_views(rest));
        lemma_pack_with(rest, component);
        if installed[0].component@ == component {
            if is_usable(installed, component) {
                let i = choose|i: int|
                    {
                        &&& 0 <= i < installed.len()
                        &&& (#[trigger] installed[i]).component@ == component
                        &&& installed[i].healthy
                        &&& forall|j: int|
                            0 <= j < i ==> (#[trigger] installed[j]).component@ != component
                    };
                if i > 0 {
                    assert(installed[0].component@ != component);
                }
            }
        } else {
            if is_usable(rest, component) {
                let i = choose|i: int|
                    {
                        &&& 0 <= i < rest.len()
                        &&& (#[trigger] rest[i]).component@ == component
                        &&& rest[i].healthy
                        &&& forall|j: int|
                            0 <= j < i ==> (#[trigger] rest[j]).component@ != component
                    };
                assert(installed[i + 1] == rest[i]);
                assert forall|j: int| 0 <= j < i + 1 implies (#[trigger] installed[j]).component@
                    != component by {
                    if j > 0 {
                        assert(rest[j - 1] == installed[j]);
                    }
                }
            }
            if is_usable(installed, component) {
                let i = choose|i: int|
                    {
                        &&& 0 <= i < installed.len()
                        &&& (#[trigger] installed[i]).component@ == component
                        &&& installed[i].healthy
                        &&& forall|j: int|
                            0 <= j < i ==> (#[trigger] installed[j]).component@ != component
                    };
                assert(rest[i - 1] == installed[i]);
                assert forall|j: int| 0 <= j < i - 1 implies (#[trigger] rest[j]).component@
                    != component by {
                    assert(rest[j] == installed[j + 1]);
                }
            }
            if exists|i: int|
                0 <= i < rest.len() && (#[trigger] rest[i]).component@ == component {
                let i = choose|i: int|
                    0 <= i < rest.len() && (#[trigger] rest[i]).component@ == component;
                assert(installed[i + 1] == rest[i]);
            }
            if exists|i: int|
                0 <= i < installed.len() && (#[trigger] installed[i]).component@ == component {
                let i = choose|i: int|
                    0 <= i < installed.len() && (#[trigger] installed[i]).component@ == component;
                assert(rest[i - 1] == installed[i]);
            }
        }
    }
}

/// A diagnosis makes four checks: that the active pack's format is known, that its component is
/// installed and healthy, that its models were loaded, and that the index was made with it. It ends
/// well if and only if all four succeed and no issue is an error. Issues that were there before stay;
/// an active pack that is missing, models that do not load and an index of another pack are errors.
pub proof fn law_diagnosis_is_complete(
    models_dir: String,
    id: &str,
    state: &PackState,
    installed: &Vec<InstalledPack>,
    issues: Vec<PackIssue>,
    findings: &DoctorFindings,
    build: &BuildInfo,
    report: DoctorReport,
)
    requires
        call_ensures(doctor, (models_dir, id, state, installed, issues, findings, build), report),
    ensures
        ({
            let active = match track_of(state@.packs, id@) {
                Some(track) => Some(track.active),
                None => None,
            };
            &&& report.checks@.len() == 4
            &&& report.checks@[0].compatible <==> (active matches Some(reference)
                && reference.format == 1)
            &&& report.checks@[1].compatible <==> (active matches Some(reference) && is_usable(
                installed@,
                reference.component,
            ))
            &&& report.checks@[2].compatible <==> (findings.trial matches Some(Ok(_)))
            &&& report.checks@[3].compatible <==> is_index_of(active, findings.index)
            &&& report.ok <==> {
                &&& forall|i: int| 0 <= i < 4 ==> (#[trigger] report.checks@[i]).compatible
                &&& forall|i: int|
                    0 <= i < report.issues@.len() ==> (#[trigger] report.issues@[i]).severity
                        != Severity::Error
            }
            &&& report.issues@.len() >= issues@.len() && forall|i: int|
                0 <= i < issues@.len() ==> (#[trigger] report.issues@[i])@ == issues@[i]@
            &&& active is None ==> has_failure(report.issues@, "active_pack_missing"@)
            &&& findings.trial matches Some(Err(_)) ==> has_failure(
                report.issues@,
                "runtime_incompatible"@,
            )
            &&& !is_index_of(active, findings.index) ==> has_failure(
                report.issues@,
                "index_incompatible"@,
            )
        }),
{
    reveal_strlit("@");
    assert("@"@ =~= seq!['@']);
    let packs = state@.packs;
    let views = installed_views(installed@);
    let checks = check_views(report.checks@);
    let expected = doctor_checks(packs, views, id@, *findings, *build);
    assert(checks.len() == 4);
    assert(checks[0] == report.checks@[0]@ && checks[1] == report.checks@[1]@ && checks[2]
        == report.checks@[2]@ && checks[3] == report.checks@[3]@);
    if let Some(track) = track_of(packs, id@) {
        lemma_pack_with(installed@, track.active.component);
    }
    let all = issue_views(report.issues@);
    let given = issue_views(issues@);
    let found = doctor_issues(packs, views, id@, *findings);
    assert(all.len() == report.issues@.len());
    assert forall|i: int| 0 <= i < report.issues@.len() implies all[i] == (
    #[trigger] report.issues@[i])@ by {
    }
    assert forall|i: int| 0 <= i < issues@.len() implies (#[trigger] report.issues@[i])@
        == issues@[i]@ by {
        assert(all[i] == given[i]);
    }
    lemma_doctor_issues(packs, views, id@, *findings);
    assert forall|k: int| 0 <= k < found.len() implies report.issues@[given.len() + k]@
        == #[trigger] found[k] by {
        assert(all[given.len() + k] == found[k]);
    }
    if report.ok {
        assert forall|i: int| 0 <= i < report.issues@.len() implies (
        #[trigger] report.issues@[i]).severity != Severity::Error by {
            assert(all[i].severity == report.issues@[i].severity);
        }
    }
}

/// Whether one of the issues is an error with a code.
pub open spec fn has_failure(issues: Seq<PackIssue>, code: Seq<char>) -> bool {
    exists|i: int|
        0 <= i < issues.len() && (#[trigger] issues[i]).severity == Severity::Error
            && issues[i].code@ == code
}

proof fn lemma_doctor_issues(
    packs: Seq<EntryView>,
    installed: Seq<InstalledView>,
    id: Seq<char>,
    findings: DoctorFindings,
)
    ensures
        ({
            let found = doctor_issues(packs, installed, id, findings);
            let active = match track_of(packs, id) {
                Some(track) => Some(track.active),
                None => None,
            };
            &&& active is None ==> found.len() > 0 && found[0].severity == Severity::Error
                && found[0].code == "active_pack_missing"@
            &&& !is_index_of(active, findings.index) ==> found.len() > 0 && found.last().severity
                == Severity::Error && found.last().code == "index_incompatible"@
            &&& findings.trial matches Some(Err(_)) ==> exists|k: int|
                0 <= k < found.len() && (#[trigger] found[k]).severity == Severity::Error
                    && found[k].code == "runtime_incompatible"@
        }),
{
    reveal_strlit("@");
    assert("@"@ =~= seq!['@']);
    let found = doctor_issues(packs, installed, id, findings);
    let active = crate::pack::report::active_reference(packs, id);
    let standing = crate::pack::report::standing_issues(
        packs,
        installed,
        id,
        crate::names::text_views(findings.stale@),
    );
    let runtime = crate::pack::doctor::runtime_issues(
        active,
        crate::text::optional(findings.runtime_version),
        crate::pack::doctor::trial_view(findings.trial),
    );
    if findings.trial matches Some(Err(_)) {
        let k = standing.len() + runtime.len() - 1;
        assert(found[k] == runtime.last());
    }
}

} // verus!
