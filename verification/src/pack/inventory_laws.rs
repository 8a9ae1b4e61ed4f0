//! What a list of installed packs, a repaired ledger and a diagnosis tell, item by item.

use vstd::prelude::*;
use vstd::seq_lib::*;
use vstd::string::*;

use crate::names::text_views;
use crate::pack::doctor_laws::is_index_of;
use crate::pack::error::PackError;
use crate::pack::health_laws::law_runtimes_are_held_against_the_record;
use crate::pack::records::{reference_views, BuildInfo, PackReference, ReferenceView};
use crate::pack::repair::{migrate_digest_state, reconstruct_state, track_references};
use crate::pack::report::{
    active_reference, diagnosed, diagnosed_pack, doctor, doctor_issues, stale_issues,
    standing_issues, DoctorFindings, DoctorReport,
};
use crate::pack::scan::{
    all_packs, found_names, found_pack, found_views, installed_views, issue_views,
    law_healthy_means_unchanged, law_missing_packs_are_listed_once, ledger_slots, missing_packs,
    scan_installed, slot_of, track_slots, FoundComponent, InstalledPack, IssueView, PackIssue,
    Severity, SlotView,
};
use crate::pack::state::{track_of, EntryView, PackState};

verus! {

/// Whether an entry of the ledger refers to a pack, as its active or as its previous one.
pub open spec fn entry_refers(entry: EntryView, reference: ReferenceView) -> bool {
    entry.track.active == reference || entry.track.previous == Some(reference)
}

/// Whether a ledger refers to a pack.
pub open spec fn ledger_refers(packs: Seq<EntryView>, reference: ReferenceView) -> bool {
    exists|i: int| 0 <= i < packs.len() && entry_refers(#[trigger] packs[i], reference)
}

/// Whether a reference is all that a ledger says of its component.
pub open spec fn is_only_reference(packs: Seq<EntryView>, reference: ReferenceView) -> bool {
    &&& ledger_refers(packs, reference)
    &&& forall|other: ReferenceView| #[trigger]
        ledger_refers(packs, other) && other.component == reference.component ==> other == reference
}

/// Whether a ledger says nothing of a component.
pub open spec fn is_unrecorded(packs: Seq<EntryView>, component: Seq<char>) -> bool {
    forall|other: ReferenceView| #[trigger]
        ledger_refers(packs, other) ==> other.component != component
}

proof fn lemma_slot_references(packs: Seq<EntryView>, reference: ReferenceView)
    ensures
        ledger_refers(packs, reference) <==> exists|k: int|
            0 <= k < ledger_slots(packs).len() && (#[trigger] ledger_slots(packs)[k]).reference
                == reference,
    decreases packs.len(),
{
    let slots = ledger_slots(packs);
    if packs.len() > 0 {
        let rest = packs.drop_last();
        let before = ledger_slots(rest);
        let own = track_slots(packs.last().track);
        lemma_slot_references(rest, reference);
        assert(slots == before + own);
        if ledger_refers(packs, reference) {
            let i = choose|i: int|
                0 <= i < packs.len() && entry_refers(#[trigger] packs[i], reference);
            if i < rest.len() {
                assert(rest[i] == packs[i]);
                let k = choose|k: int|
                    0 <= k < before.len() && (#[trigger] before[k]).reference == reference;
                assert(slots[k] == before[k]);
            } else {
                assert(slots[before.len() as int] == own[0]);
                if packs.last().track.active != reference {
                    assert(slots[before.len() as int + 1] == own[1]);
                }
            }
        }
        if exists|k: int| 0 <= k < slots.len() && (#[trigger] slots[k]).reference == reference {
            let k = choose|k: int|
                0 <= k < slots.len() && (#[trigger] slots[k]).reference == reference;
            if k < before.len() {
                assert(before[k] == slots[k]);
                let i = choose|i: int|
                    0 <= i < rest.len() && entry_refers(#[trigger] rest[i], reference);
                assert(packs[i] == rest[i]);
            } else {
                assert(slots[k] == own[k - before.len()]);
                assert(entry_refers(packs[packs.len() - 1], reference));
            }
        }
    }
}

proof fn lemma_slot_found(slots: Seq<SlotView>, component: Seq<char>)
    ensures
        match slot_of(slots, component) {
            Some(slot) => slot.reference.component == component && exists|k: int|
                0 <= k < slots.len() && #[trigger] slots[k] == slot,
            None => forall|k: int|
                0 <= k < slots.len() ==> (#[trigger] slots[k]).reference.component != component,
        },
    decreases slots.len(),
{
    if slots.len() > 0 {
        let rest = slots.drop_last();
        if slots.last().reference.component == component {
            assert(slots[slots.len() - 1] == slots.last());
        } else {
            lemma_slot_found(rest, component);
            match slot_of(rest, component) {
                Some(slot) => {
                    let k = choose|k: int| 0 <= k < rest.len() && #[trigger] rest[k] == slot;
                    assert(slots[k] == slot);
                },
                None => {
                    assert forall|k: int| 0 <= k < slots.len() implies (
                    #[trigger] slots[k]).reference.component != component by {
                        if k < rest.len() {
                            assert(rest[k] == slots[k]);
                        }
                    }
                },
            }
        }
    }
}

proof fn lemma_recorded_slot(packs: Seq<EntryView>, reference: ReferenceView, component: Seq<char>)
    ensures
        is_only_reference(packs, reference) ==> (slot_of(
            ledger_slots(packs),
            reference.component,
        ) matches Some(slot) && slot.reference == reference),
        is_unrecorded(packs, component) ==> slot_of(ledger_slots(packs), component) is None,
{
    let slots = ledger_slots(packs);
    lemma_slot_found(slots, reference.component);
    lemma_slot_found(slots, component);
    if is_only_reference(packs, reference) {
        lemma_slot_references(packs, reference);
        let k = choose|k: int|
            0 <= k < slots.len() && (#[trigger] slots[k]).reference == reference;
        let slot = slot_of(slots, reference.component)->Some_0;
        lemma_slot_references(packs, slot.reference);
        assert(ledger_refers(packs, slot.reference));
    }
    if is_unrecorded(packs, component) && slot_of(slots, component) is Some {
        let slot = slot_of(slots, component)->Some_0;
        lemma_slot_references(packs, slot.reference);
        assert(ledger_refers(packs, slot.reference));
    }
}

proof fn lemma_listed(
    models_dir: &str,
    state: &PackState,
    found: &Vec<FoundComponent>,
    installed: Vec<InstalledPack>,
    at: int,
) -> (i: int)
    requires
        call_ensures(scan_installed, (models_dir, state, found), installed),
        0 <= at < all_packs(models_dir@, state@.packs, found_views(found@)).len(),
    ensures
        0 <= i < installed@.len(),
        installed@[i]@ == all_packs(models_dir@, state@.packs, found_views(found@))[at],
{
    let all = all_packs(models_dir@, state@.packs, found_views(found@));
    let views = installed_views(installed@);
    all.to_multiset_ensures();
    views.to_multiset_ensures();
    assert(all.contains(all[at]));
    assert(views.to_multiset().contains(all[at]));
    assert(views.contains(all[at]));
    let i = choose|i: int| 0 <= i < views.len() && views[i] == all[at];
    assert(views[i] == installed@[i]@);
    i
}

/// A component that was found is listed with what was found in it. If the ledger records it, it is healthy
/// if and only if it is the pack that was recorded, with the files that were recorded; if the ledger does
/// not know it, it is healthy if and only if it could be read.
pub proof fn law_found_components_are_held_against_the_ledger(
    models_dir: &str,
    state: &PackState,
    found: &Vec<FoundComponent>,
    installed: Vec<InstalledPack>,
    at: int,
    reference: ReferenceView,
) -> (i: int)
    requires
        call_ensures(scan_installed, (models_dir, state, found), installed),
        0 <= at < found@.len(),
    ensures
        0 <= i < installed@.len(),
        installed@[i].component@ == found@[at].component@,
        found@[at].metadata matches Ok(metadata) ==> {
            &&& installed@[i].id@ == metadata.id@
            &&& installed@[i].version@ == metadata.version@
            &&& installed@[i].dimensions == metadata.dimensions
            &&& installed@[i].bytes == metadata.bytes
            &&& installed@[i]@.files == metadata@.files
        },
        found@[at].metadata is Err ==> !installed@[i].healthy,
        is_unrecorded(state@.packs, found@[at].component@) ==> (installed@[i].healthy
            <==> found@[at].metadata is Ok),
        is_only_reference(state@.packs, reference) && reference.component == found@[at].component@
            ==> (installed@[i].healthy <==> (found@[at].metadata matches Ok(metadata) && {
            &&& reference.id == metadata.id@
            &&& reference.version == metadata.version@
            &&& reference.format == metadata.format
            &&& reference.dimensions == metadata.dimensions
            &&& reference.files.len() > 0
            &&& reference.files == metadata@.files
        })),
{
    let views = found_views(found@);
    let slots = ledger_slots(state@.packs);
    let all = all_packs(models_dir@, state@.packs, views);
    assert(views[at] == found@[at]@);
    assert(all[at] == found_pack(models_dir@, slots, views[at]));
    lemma_recorded_slot(state@.packs, reference, found@[at].component@);
    let slot = slot_of(slots, found@[at].component@);
    law_healthy_means_unchanged(
        found@[at].component@,
        all[at].manifest,
        all[at].role,
        match slot {
            Some(slot) => Some(slot.reference),
            None => None,
        },
        views[at].metadata,
    );
    lemma_listed(models_dir, state, found, installed, at)
}

/// Where no component was found twice, none is listed twice.
pub proof fn law_components_are_listed_once(
    models_dir: &str,
    state: &PackState,
    found: &Vec<FoundComponent>,
    installed: Vec<InstalledPack>,
    i: int,
    j: int,
)
    requires
        call_ensures(scan_installed, (models_dir, state, found), installed),
        forall|k: int, l: int|
            0 <= k < l < found@.len() ==> (#[trigger] found@[k]).component@ != (
            #[trigger] found@[l]).component@,
        0 <= i < j < installed@.len(),
    ensures
        installed@[i].component@ != installed@[j].component@,
{
    let views = found_views(found@);
    let slots = ledger_slots(state@.packs);
    let names = found_names(views);
    let missing = missing_packs(models_dir@, slots, names, slots.len());
    let all = all_packs(models_dir@, state@.packs, views);
    law_missing_packs_are_listed_once(models_dir@, slots, names, slots.len());
    assert forall|k: int, l: int| 0 <= k < l < all.len() implies (#[trigger] all[k]).component != (
    #[trigger] all[l]).component by {
        if l < views.len() {
            assert(all[k] == found_pack(models_dir@, slots, views[k]));
            assert(all[l] == found_pack(models_dir@, slots, views[l]));
            assert(views[k] == found@[k]@ && views[l] == found@[l]@);
        } else {
            assert(all[l] == missing[l - views.len()]);
            if k < views.len() {
                assert(all[k] == found_pack(models_dir@, slots, views[k]));
                lemma_missing_is_not_found(
                    models_dir@,
                    slots,
                    names,
                    slots.len(),
                    l - views.len(),
                );
                assert(names[k] == views[k].component);
            } else {
                assert(all[k] == missing[k - views.len()]);
            }
        }
    }
    assert(all.no_duplicates());
    let listed = installed_views(installed@);
    all.lemma_multiset_has_no_duplicates();
    listed.lemma_multiset_has_no_duplicates_conv();
    assert(listed[i] == installed@[i]@ && listed[j] == installed@[j]@);
    assert(listed[i] != listed[j]);
    all.to_multiset_ensures();
    listed.to_multiset_ensures();
    assert(listed.contains(listed[i]) && listed.contains(listed[j]));
    assert(listed.to_multiset().contains(listed[i]) && listed.to_multiset().contains(listed[j]));
    assert(all.to_multiset().contains(listed[i]) && all.to_multiset().contains(listed[j]));
    assert(all.contains(listed[i]) && all.contains(listed[j]));
    let k = choose|k: int| 0 <= k < all.len() && all[k] == listed[i];
    let l = choose|l: int| 0 <= l < all.len() && all[l] == listed[j];
    if k < l {
        assert(all[k].component != all[l].component);
    } else {
        assert(all[l].component != all[k].component);
    }
}

proof fn lemma_missing_is_not_found(
    models_dir: Seq<char>,
    slots: Seq<SlotView>,
    names: Seq<Seq<char>>,
    end: nat,
    at: int,
)
    requires
        end <= slots.len(),
        0 <= at < missing_packs(models_dir, slots, names, end).len(),
    ensures
        !names.contains(missing_packs(models_dir, slots, names, end)[at].component),
    decreases end,
{
    let earlier = missing_packs(models_dir, slots, names, (end - 1) as nat);
    if at < earlier.len() {
        lemma_missing_is_not_found(models_dir, slots, names, (end - 1) as nat, at);
    }
}

proof fn lemma_track_references(packs: Seq<EntryView>, reference: ReferenceView)
    ensures
        track_references(packs).contains(reference) <==> ledger_refers(packs, reference),
    decreases packs.len(),
{
    let all = track_references(packs);
    if packs.len() > 0 {
        let rest = packs.drop_last();
        let before = track_references(rest);
        lemma_track_references(rest, reference);
        let last = packs.last().track;
        if all.contains(reference) {
            let k = choose|k: int| 0 <= k < all.len() && all[k] == reference;
            if k < before.len() {
                assert(before[k] == reference);
                let i = choose|i: int|
                    0 <= i < rest.len() && entry_refers(#[trigger] rest[i], reference);
                assert(packs[i] == rest[i]);
            } else {
                assert(entry_refers(packs[packs.len() - 1], reference));
            }
        }
        if ledger_refers(packs, reference) {
            let i = choose|i: int|
                0 <= i < packs.len() && entry_refers(#[trigger] packs[i], reference);
            if i < rest.len() {
                assert(rest[i] == packs[i]);
                let k = choose|k: int| 0 <= k < before.len() && before[k] == reference;
                assert(all[k] == reference);
            } else if last.active == reference {
                assert(all[before.len() as int] == reference);
            } else {
                assert(all[before.len() as int + 1] == reference);
            }
        }
    }
}

/// Whether one of the references has a value.
pub open spec fn is_adopted(adopted: Seq<PackReference>, reference: ReferenceView) -> bool {
    exists|i: int| 0 <= i < adopted.len() && (#[trigger] adopted[i])@ == reference
}

proof fn lemma_is_adopted(adopted: Seq<PackReference>, reference: ReferenceView)
    ensures
        reference_views(adopted).contains(reference) <==> is_adopted(adopted, reference),
{
    let views = reference_views(adopted);
    if views.contains(reference) {
        let i = choose|i: int| 0 <= i < views.len() && views[i] == reference;
        assert(adopted[i]@ == reference);
    }
    if is_adopted(adopted, reference) {
        let i = choose|i: int| 0 <= i < adopted.len() && (#[trigger] adopted[i])@ == reference;
        assert(views[i] == reference);
    }
}

/// A repair reports as adopted the packs that the repaired ledger refers to, and no others. A ledger that is
/// made anew is of the known format, under the name of the program that makes it.
pub proof fn law_repairs_report_what_they_adopt(
    installed: &Vec<InstalledPack>,
    selected: Option<&str>,
    build: &BuildInfo,
    made: (PackState, Vec<PackReference>),
    state: &PackState,
    migrated: Result<(PackState, Vec<PackReference>), PackError>,
    reference: ReferenceView,
)
    requires
        call_ensures(reconstruct_state, (installed, selected, build), made),
        call_ensures(migrate_digest_state, (state, installed), migrated),
    ensures
        is_adopted(made.1@, reference) <==> ledger_refers(made.0@.packs, reference),
        made.0.format == 1 && made.0.written_by@ == build.version@,
        migrated matches Ok((after, adopted)) ==> (is_adopted(adopted@, reference)
            <==> ledger_refers(after@.packs, reference)),
{
    lemma_track_references(made.0@.packs, reference);
    lemma_is_adopted(made.1@, reference);
    if let Ok((after, adopted)) = migrated {
        lemma_track_references(after@.packs, reference);
        lemma_is_adopted(adopted@, reference);
    }
}

/// Whether one of the issues has a value.
pub open spec fn is_told(issues: Seq<PackIssue>, issue: IssueView) -> bool {
    exists|i: int| 0 <= i < issues.len() && (#[trigger] issues[i])@ == issue
}

/// A diagnosis tells everything that is wrong and nothing else: what was wrong before; whatever is wrong
/// with the pack itself; a warning for each thing that an unfinished change left behind; and one issue each
/// for no active pack, a runtime of another version, models that do not load, and an index of another
/// pack.
pub proof fn law_diagnoses_tell_everything(
    models_dir: String,
    id: &str,
    state: &PackState,
    installed: &Vec<InstalledPack>,
    issues: Vec<PackIssue>,
    findings: &DoctorFindings,
    build: &BuildInfo,
    report: DoctorReport,
    pack: Option<&InstalledPack>,
    at: int,
)
    requires
        call_ensures(doctor, (models_dir, id, state, installed, issues, findings, build), report),
        call_ensures(diagnosed, (state, installed, id), pack),
    ensures
        pack is Some && 0 <= at < pack->Some_0.issues@.len() ==> is_told(
            report.issues@,
            pack->Some_0.issues@[at]@,
        ),
        0 <= at < findings.stale@.len() ==> exists|i: int|
            0 <= i < report.issues@.len() && (#[trigger] report.issues@[i]).severity
                == Severity::Warning && report.issues@[i].code@ == "stale_transaction"@
                && report.issues@[i].message@ == "incomplete transaction remains at "@
                + findings.stale@[at]@,
        ({
            let active = match track_of(state@.packs, id@) {
                Some(track) => Some(track.active),
                None => None,
            };
            let changed = active matches Some(reference) && (
            reference.runtime_version matches Some(recorded) && (
            findings.runtime_version matches Some(selected) && selected@ != recorded));
            report.issues@.len() == issues@.len() + (if active is None {
                1int
            } else {
                0
            }) + (match pack {
                Some(pack) => pack.issues@.len() as int,
                None => 0,
            }) + findings.stale@.len() + (if changed {
                1int
            } else {
                0
            }) + (if findings.trial matches Some(Err(_)) {
                1int
            } else {
                0
            }) + (if is_index_of(active, findings.index) {
                0int
            } else {
                1
            })
        }),
{
    reveal_strlit("@");
    assert("@"@ =~= seq!['@']);
    let packs = state@.packs;
    let views = installed_views(installed@);
    let active = active_reference(packs, id@);
    let all = issue_views(report.issues@);
    let given = issue_views(issues@);
    let found = doctor_issues(packs, views, id@, *findings);
    let stale = text_views(findings.stale@);
    let standing = standing_issues(packs, views, id@, stale);
    let own = match diagnosed_pack(packs, views, id@) {
        Some(pack) => pack.issues,
        None => Seq::empty(),
    };
    let before: int = if active is None {
        1
    } else {
        0
    };
    law_runtimes_are_held_against_the_record(
        active,
        crate::text::optional(findings.runtime_version),
        crate::pack::doctor::trial_view(findings.trial),
    );
    assert(all.len() == report.issues@.len());
    assert(given.len() == issues@.len());
    assert(stale_issues(stale).len() == findings.stale@.len());
    assert(standing.len() == before + own.len() + findings.stale@.len());
    if let Some(shown) = pack {
        assert(own == issue_views(shown.issues@));
        assert(own.len() == shown.issues@.len());
        if 0 <= at < shown.issues@.len() {
            let i = given.len() + before + at;
            assert(standing[before + at] == own[at]);
            assert(found[before + at] == standing[before + at]);
            assert(all[i] == found[before + at]);
            assert(all[i] == report.issues@[i]@);
            assert(own[at] == shown.issues@[at]@);
        }
    } else {
        assert(own.len() == 0);
    }
    if 0 <= at < findings.stale@.len() {
        let k = before + own.len() + at;
        let i = given.len() + k;
        assert(standing[k] == stale_issues(stale)[at]);
        assert(found[k] == standing[k]);
        assert(all[i] == found[k]);
        assert(all[i] == report.issues@[i]@);
        assert(stale[at] == findings.stale@[at]@);
        assert(report.issues@[i].severity == Severity::Warning);
    }
}

} // verus!
