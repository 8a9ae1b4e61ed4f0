//! What is listed of a model directory, and what is reported of it.

use vstd::prelude::*;
use vstd::seq_lib::*;
use vstd::string::*;

use crate::pack::error::PackError;
use crate::pack::import_laws::failure_code;
use crate::pack::records::{BuildInfo, PackReference};
use crate::pack::report::{
    active_manifest, id_marks, marked_packs, other_marks, packs_of, reference_components,
    repair_report, status, RepairReport, StatusReport,
};
use crate::pack::scan::{
    all_packs, component_manifest, found_names, found_pack, found_views, installed_views,
    law_recorded_packs_are_listed, ledger_slots, missing_pack, missing_packs, scan_installed,
    slot_of, track_slots, FoundComponent, FoundView, InstalledPack, InstalledView, PackRole,
    SlotView,
};
use crate::pack::state::{track_of, EntryView, PackState};
use crate::path::joined_path;
use crate::selection::{is_selection, lemma_filter};
use crate::sort::may_lead;
use crate::text::precedes;

verus! {

proof fn lemma_marked(
    installed: Seq<InstalledPack>,
    marks: Seq<bool>,
    wanted: spec_fn(InstalledPack) -> bool,
)
    requires
        marks.len() == installed.len(),
        forall|i: int| 0 <= i < installed.len() ==> marks[i] == wanted(#[trigger] installed[i]),
    ensures
        marked_packs(installed, marks) == installed.filter(wanted),
    decreases installed.len(),
{
    reveal(Seq::filter);
    if installed.len() > 0 {
        let rest = installed.drop_last();
        assert forall|i: int| 0 <= i < rest.len() implies marks.drop_last()[i] == wanted(
            #[trigger] rest[i],
        ) by {
            assert(rest[i] == installed[i]);
        }
        lemma_marked(rest, marks.drop_last(), wanted);
        assert(marks.last() == wanted(installed[installed.len() - 1]));
    } else {
        assert(marked_packs(installed, marks) =~= installed.filter(wanted));
    }
}

/// The status of an id has all installed packs with the id and no other, in the order in which they
/// are listed, and the two packs of its track. There is none if and only if no pack is installed with
/// the id and the ledger has no track for it.
pub proof fn law_status_has_all_packs_of_an_id(
    state: &PackState,
    installed: Vec<InstalledPack>,
    id: &str,
    build: &BuildInfo,
    report: Result<StatusReport, PackError>,
) -> (positions: Seq<int>)
    requires
        call_ensures(status, (state, installed, id, build), report),
    ensures
        report is Err <==> track_of(state@.packs, id@) is None && forall|i: int|
            0 <= i < installed@.len() ==> (#[trigger] installed@[i]).id@ != id@,
        report matches Err(error) ==> failure_code(error) == Some("pack_not_found"@),
        report matches Ok(report) ==> {
            &&& is_selection(
                installed@,
                |pack: InstalledPack| pack.id@ == id@,
                report.installed@,
                positions,
            )
            &&& match track_of(state@.packs, id@) {
                Some(track) => {
                    &&& report.active matches Some(active) && active@ == track.active
                    &&& match (report.previous, track.previous) {
                        (Some(shown), Some(previous)) => shown@ == previous,
                        (None, None) => true,
                        _ => false,
                    }
                },
                None => report.active is None && report.previous is None,
            }
        },
{
    let wanted = |pack: InstalledPack| pack.id@ == id@;
    lemma_marked(installed@, id_marks(installed@, id@), wanted);
    let kept = installed@.filter(wanted);
    assert(packs_of(installed@, id@) == kept);
    let positions = lemma_filter(installed@, wanted);
    assert(is_selection(installed@, wanted, kept, positions));
    if kept.len() == 0 {
        assert forall|i: int| 0 <= i < installed@.len() implies (#[trigger] installed@[i]).id@ != id@ by {
            if wanted(installed@[i]) {
                assert(positions.contains(i));
            }
        }
    } else {
        assert(positions.contains(positions[0]));
        assert(wanted(installed@[positions[0]]));
        assert(installed@[positions[0]].id@ == id@);
    }
    positions
}

/// A repair leaves unresolved all installed packs whose component it did not adopt, and no other.
pub proof fn law_repairs_name_what_is_left(
    models_dir: String,
    backup: String,
    adopted: Vec<PackReference>,
    installed: Vec<InstalledPack>,
    report: RepairReport,
) -> (positions: Seq<int>)
    requires
        call_ensures(repair_report, (models_dir, backup, adopted, installed), report),
    ensures
        report.adopted@ == adopted@,
        is_selection(
            installed@,
            |pack: InstalledPack|
                forall|i: int|
                    0 <= i < adopted@.len() ==> (#[trigger] adopted@[i]).component@
                        != pack.component@,
            report.unresolved@,
            positions,
        ),
{
    let wanted = |pack: InstalledPack|
        forall|i: int|
            0 <= i < adopted@.len() ==> (#[trigger] adopted@[i]).component@ != pack.component@;
    let components = reference_components(adopted@);
    let marks = other_marks(installed@, components);
    assert forall|i: int| 0 <= i < installed@.len() implies marks[i] == wanted(
        #[trigger] installed@[i],
    ) by {
        let own = installed@[i].component@;
        if components.contains(own) {
            let k = choose|k: int| 0 <= k < components.len() && components[k] == own;
            assert(adopted@[k].component@ == own);
        }
        if !wanted(installed@[i]) {
            let k = choose|k: int|
                0 <= k < adopted@.len() && (#[trigger] adopted@[k]).component@ == own;
            assert(components[k] == own);
        }
    }
    lemma_marked(installed@, marks, wanted);
    let positions = lemma_filter(installed@, wanted);
    assert(is_selection(installed@, wanted, report.unresolved@, positions));
    positions
}

/// A search uses the active pack of the id that it is given, or else that of the only id in the ledger;
/// it uses none if and only if the ledger does not know the id, or there is not exactly one.
pub proof fn law_searches_use_the_active_pack(
    models_dir: &str,
    state: &PackState,
    id: Option<&str>,
    manifest: Result<String, PackError>,
)
    requires
        call_ensures(active_manifest, (models_dir, state, id), manifest),
    ensures
        match id {
            Some(id) => match track_of(state@.packs, id@) {
                Some(track) => manifest matches Ok(manifest) && manifest@ == joined_path(
                    joined_path(models_dir@, track.active.component),
                    "semantic-pack.json"@,
                ),
                None => manifest matches Err(error) && failure_code(error) == Some(
                    "pack_not_installed"@,
                ),
            },
            None => if state@.packs.len() == 1 {
                manifest matches Ok(manifest) && manifest@ == joined_path(
                    joined_path(models_dir@, state@.packs[0].track.active.component),
                    "semantic-pack.json"@,
                )
            } else {
                manifest matches Err(error) && failure_code(error) == Some(
                    "pack_selection_required"@,
                )
            },
        },
{
}

/// Whether the ledger has a component as the active pack of an id.
pub open spec fn is_active_component(packs: Seq<EntryView>, component: Seq<char>) -> bool {
    exists|i: int|
        0 <= i < packs.len() && (#[trigger] packs[i]).track.active.component == component
}

/// Whether the ledger has a component as the previous pack of an id.
pub open spec fn is_previous_component(packs: Seq<EntryView>, component: Seq<char>) -> bool {
    exists|i: int|
        0 <= i < packs.len() && ((#[trigger] packs[i]).track.previous matches Some(previous)
            && previous.component == component)
}

proof fn lemma_slots(packs: Seq<EntryView>)
    ensures
        forall|component: Seq<char>|
            is_active_component(packs, component) == exists|k: int|
                0 <= k < ledger_slots(packs).len() && (#[trigger] ledger_slots(packs)[k]).role
                    == PackRole::Active && ledger_slots(packs)[k].reference.component == component,
        forall|component: Seq<char>|
            is_previous_component(packs, component) == exists|k: int|
                0 <= k < ledger_slots(packs).len() && (#[trigger] ledger_slots(packs)[k]).role
                    == PackRole::Previous && ledger_slots(packs)[k].reference.component
                    == component,
        forall|k: int|
            0 <= k < ledger_slots(packs).len() ==> (#[trigger] ledger_slots(packs)[k]).role
                == PackRole::Active || ledger_slots(packs)[k].role == PackRole::Previous,
    decreases packs.len(),
{
    if packs.len() > 0 {
        let rest = packs.drop_last();
        let last = packs.last();
        lemma_slots(rest);
        let before = ledger_slots(rest);
        let own = track_slots(last.track);
        let slots = ledger_slots(packs);
        assert(slots == before + own);
        assert forall|k: int| 0 <= k < slots.len() implies slots[k] == (if k < before.len() {
            before[k]
        } else {
            own[k - before.len()]
        }) by {
        }
        assert forall|component: Seq<char>|
            is_active_component(packs, component) == (exists|k: int|
                0 <= k < slots.len() && (#[trigger] slots[k]).role == PackRole::Active
                    && slots[k].reference.component == component) by {
            if is_active_component(packs, component) {
                let i = choose|i: int|
                    0 <= i < packs.len() && (#[trigger] packs[i]).track.active.component
                        == component;
                if i < rest.len() {
                    assert(rest[i] == packs[i]);
                    assert(is_active_component(rest, component));
                    let k = choose|k: int|
                        0 <= k < before.len() && (#[trigger] before[k]).role == PackRole::Active
                            && before[k].reference.component == component;
                    assert(slots[k] == before[k]);
                } else {
                    assert(slots[before.len() as int] == own[0]);
                }
            }
            if exists|k: int|
                0 <= k < slots.len() && (#[trigger] slots[k]).role == PackRole::Active
                    && slots[k].reference.component == component {
                let k = choose|k: int|
                    0 <= k < slots.len() && (#[trigger] slots[k]).role == PackRole::Active
                        && slots[k].reference.component == component;
                if k < before.len() {
                    assert(before[k] == slots[k]);
                    assert(is_active_component(rest, component));
                    let i = choose|i: int|
                        0 <= i < rest.len() && (#[trigger] rest[i]).track.active.component
                            == component;
                    assert(packs[i] == rest[i]);
                } else {
                    assert(packs[packs.len() - 1].track.active.component == component);
                }
            }
        }
        assert forall|component: Seq<char>|
            is_previous_component(packs, component) == (exists|k: int|
                0 <= k < slots.len() && (#[trigger] slots[k]).role == PackRole::Previous
                    && slots[k].reference.component == component) by {
            if is_previous_component(packs, component) {
                let i = choose|i: int|
                    0 <= i < packs.len() && ((#[trigger] packs[i]).track.previous matches Some(
                        previous,
                    ) && previous.component == component);
                if i < rest.len() {
                    assert(rest[i] == packs[i]);
                    assert(is_previous_component(rest, component));
                    let k = choose|k: int|
                        0 <= k < before.len() && (#[trigger] before[k]).role == PackRole::Previous
                            && before[k].reference.component == component;
                    assert(slots[k] == before[k]);
                } else {
                    assert(slots[before.len() as int + 1] == own[1]);
                }
            }
            if exists|k: int|
                0 <= k < slots.len() && (#[trigger] slots[k]).role == PackRole::Previous
                    && slots[k].reference.component == component {
                let k = choose|k: int|
                    0 <= k < slots.len() && (#[trigger] slots[k]).role == PackRole::Previous
                        && slots[k].reference.component == component;
                if k < before.len() {
                    assert(before[k] == slots[k]);
                    assert(is_previous_component(rest, component));
                    let i = choose|i: int|
                        0 <= i < rest.len() && ((#[trigger] rest[i]).track.previous matches Some(
                            previous,
                        ) && previous.component == component);
                    assert(packs[i] == rest[i]);
                } else {
                    assert(own[k - before.len()].role == PackRole::Previous);
                    assert(packs[packs.len() - 1].track.previous is Some);
                }
            }
        }
    } else {
        assert(ledger_slots(packs).len() == 0);
    }
}

proof fn lemma_slot_of(slots: Seq<SlotView>, component: Seq<char>)
    ensures
        match slot_of(slots, component) {
            Some(slot) => slot.reference.component == component && slots.contains(slot),
            None => forall|k: int|
                0 <= k < slots.len() ==> (#[trigger] slots[k]).reference.component != component,
        },
    decreases slots.len(),
{
    if slots.len() > 0 {
        let rest = slots.drop_last();
        if slots.last().reference.component == component {
            assert(slots.contains(slots[slots.len() - 1]));
        } else {
            lemma_slot_of(rest, component);
            match slot_of(rest, component) {
                Some(slot) => {
                    let k = choose|k: int| 0 <= k < rest.len() && rest[k] == slot;
                    assert(slots[k] == slot);
                },
                None => {
                    assert forall|k: int| 0 <= k < slots.len() implies (
                    #[trigger] slots[k]).reference.component != component by {
                        if k < rest.len() {
                            assert(rest[k] == slots[k]);
                        }
                    }
                },
            }
        }
    }
}

/// What a component is listed as: active only if the ledger has it as an active pack, previous only if
/// it has it as a previous one, and neither if and only if the ledger does not have it.
pub open spec fn is_role_of(packs: Seq<EntryView>, component: Seq<char>, role: PackRole) -> bool {
    match role {
        PackRole::Active => is_active_component(packs, component),
        PackRole::Previous => is_previous_component(packs, component),
        PackRole::Inactive => !is_active_component(packs, component) && !is_previous_component(
            packs,
            component,
        ),
    }
}

proof fn lemma_roles(models_dir: Seq<char>, packs: Seq<EntryView>, found: Seq<FoundView>)
    ensures
        forall|i: int|
            0 <= i < all_packs(models_dir, packs, found).len() ==> {
                let pack = #[trigger] all_packs(models_dir, packs, found)[i];
                &&& is_role_of(packs, pack.component, pack.role)
                &&& pack.manifest == component_manifest(models_dir, pack.component)
                &&& i < found.len() ==> pack.component == found[i].component && (pack.healthy
                    ==> found[i].metadata is Ok)
                &&& i >= found.len() ==> !pack.healthy && !found_names(found).contains(
                    pack.component,
                )
            },
{
    let slots = ledger_slots(packs);
    let names = found_names(found);
    let all = all_packs(models_dir, packs, found);
    lemma_slots(packs);
    assert forall|i: int| 0 <= i < all.len() implies {
        let pack = #[trigger] all[i];
        &&& is_role_of(packs, pack.component, pack.role)
        &&& pack.manifest == component_manifest(models_dir, pack.component)
        &&& i < found.len() ==> pack.component == found[i].component && (pack.healthy
            ==> found[i].metadata is Ok)
        &&& i >= found.len() ==> !pack.healthy && !names.contains(pack.component)
    } by {
        if i < found.len() {
            assert(all[i] == found_pack(models_dir, slots, found[i]));
            lemma_slot_of(slots, found[i].component);
            match slot_of(slots, found[i].component) {
                Some(slot) => {
                    let k = choose|k: int| 0 <= k < slots.len() && slots[k] == slot;
                    assert(slots[k].reference.component == found[i].component);
                },
                None => {},
            }
        } else {
            let missing = missing_packs(models_dir, slots, names, slots.len());
            assert(all[i] == missing[i - found.len()]);
            let k = lemma_missing(models_dir, slots, names, slots.len(), i - found.len());
            assert(slots[k].role == slots[k].role);
        }
    }
}

proof fn lemma_missing(
    models_dir: Seq<char>,
    slots: Seq<SlotView>,
    names: Seq<Seq<char>>,
    end: nat,
    at: int,
) -> (position: int)
    requires
        end <= slots.len(),
        0 <= at < missing_packs(models_dir, slots, names, end).len(),
    ensures
        0 <= position < end,
        missing_packs(models_dir, slots, names, end)[at] == missing_pack(
            models_dir,
            slots[position],
        ),
        !names.contains(slots[position].reference.component),
    decreases end,
{
    let earlier = missing_packs(models_dir, slots, names, (end - 1) as nat);
    if at < earlier.len() {
        lemma_missing(models_dir, slots, names, (end - 1) as nat, at)
    } else {
        end - 1
    }
}

/// A list of a model directory has every component that was found and every one that the ledger has,
/// and no other, each in the part that the ledger gives it. What was not found, or could not be read,
/// is not healthy. The packs stand in the order of their ids, then versions, then components.
pub proof fn law_lists_hold_every_component(
    models_dir: &str,
    state: &PackState,
    found: &Vec<FoundComponent>,
    installed: Vec<InstalledPack>,
)
    requires
        call_ensures(scan_installed, (models_dir, state, found), installed),
    ensures
        forall|i: int|
            0 <= i < installed@.len() ==> {
                let pack = #[trigger] installed@[i];
                &&& is_role_of(state@.packs, pack.component@, pack.role)
                &&& pack.healthy ==> exists|k: int|
                    0 <= k < found@.len() && (#[trigger] found@[k]).component@ == pack.component@
                        && found@[k].metadata is Ok
                &&& pack.role == PackRole::Inactive ==> exists|k: int|
                    0 <= k < found@.len() && (#[trigger] found@[k]).component@ == pack.component@
            },
        forall|k: int|
            0 <= k < found@.len() ==> exists|i: int|
                0 <= i < installed@.len() && (#[trigger] installed@[i]).component@ == (
                #[trigger] found@[k]).component@,
        forall|component: Seq<char>|
            #![trigger is_active_component(state@.packs, component)]
            is_active_component(state@.packs, component) ==> exists|i: int|
                0 <= i < installed@.len() && (#[trigger] installed@[i]).component@ == component,
        forall|i: int, j: int|
            0 <= i < j < installed@.len() ==> {
                let left = #[trigger] installed@[i];
                let right = #[trigger] installed@[j];
                ||| precedes(left.id@, right.id@)
                ||| left.id@ == right.id@ && precedes(left.version@, right.version@)
                ||| left.id@ == right.id@ && left.version@ == right.version@ && !precedes(
                    right.component@,
                    left.component@,
                )
            },
{
    let packs = state@.packs;
    let views = installed_views(installed@);
    let discovered = found_views(found@);
    let all = all_packs(models_dir@, packs, discovered);
    lemma_roles(models_dir@, packs, discovered);
    lemma_slots(packs);
    broadcast use vstd::seq_lib::group_to_multiset_ensures;

    views.to_multiset_ensures();
    all.to_multiset_ensures();
    assert forall|i: int| 0 <= i < installed@.len() implies {
        let pack = #[trigger] installed@[i];
        &&& is_role_of(packs, pack.component@, pack.role)
        &&& pack.healthy ==> exists|k: int|
            0 <= k < found@.len() && (#[trigger] found@[k]).component@ == pack.component@
                && found@[k].metadata is Ok
        &&& pack.role == PackRole::Inactive ==> exists|k: int|
            0 <= k < found@.len() && (#[trigger] found@[k]).component@ == pack.component@
    } by {
        assert(views[i] == installed@[i]@);
        assert(views.contains(views[i]));
        assert(views.to_multiset().count(views[i]) > 0);
        assert(all.contains(views[i]));
        let k = choose|k: int| 0 <= k < all.len() && all[k] == views[i];
        assert(all[k] == views[i]);
        if k < found@.len() {
            assert(discovered[k] == found@[k]@);
            assert(found@[k].component@ == installed@[i].component@);
        } else {
            let slots = ledger_slots(packs);
            let names = found_names(discovered);
            assert(all[k] == missing_packs(models_dir@, slots, names, slots.len())[k
                - found@.len()]);
            let position = lemma_missing(
                models_dir@,
                slots,
                names,
                slots.len(),
                k - found@.len(),
            );
            assert(slots[position].role == installed@[i].role);
        }
    }
    assert forall|k: int| 0 <= k < found@.len() implies exists|i: int|
        0 <= i < installed@.len() && (#[trigger] installed@[i]).component@ == (
        #[trigger] found@[k]).component@ by {
        assert(discovered[k] == found@[k]@);
        assert(all[k].component == found@[k].component@);
        lemma_listed(installed@, all, k);
    }
    assert forall|component: Seq<char>|
        #![trigger is_active_component(packs, component)]
        is_active_component(packs, component) implies exists|i: int|
        0 <= i < installed@.len() && (#[trigger] installed@[i]).component@ == component by {
        let slots = ledger_slots(packs);
        let k = choose|k: int|
            0 <= k < slots.len() && (#[trigger] slots[k]).role == PackRole::Active
                && slots[k].reference.component == component;
        law_recorded_packs_are_listed(models_dir@, packs, discovered, k);
        let i = choose|i: int|
            0 <= i < all.len() && (#[trigger] all_packs(
                models_dir@,
                packs,
                discovered,
            )[i]).component == component;
        lemma_listed(installed@, all, i);
    }
    assert forall|i: int, j: int| 0 <= i < j < installed@.len() implies {
        let left = #[trigger] installed@[i];
        let right = #[trigger] installed@[j];
        ||| precedes(left.id@, right.id@)
        ||| left.id@ == right.id@ && precedes(left.version@, right.version@)
        ||| left.id@ == right.id@ && left.version@ == right.version@ && !precedes(
            right.component@,
            left.component@,
        )
    } by {
        assert(may_lead(installed@[i], installed@[j], true));
        crate::text::law_order_total(installed@[i].id@, installed@[j].id@);
        crate::text::law_order_total(installed@[i].version@, installed@[j].version@);
    }
}

proof fn lemma_listed(installed: Seq<InstalledPack>, all: Seq<InstalledView>, at: int)
    requires
        installed_views(installed).to_multiset() == all.to_multiset(),
        0 <= at < all.len(),
    ensures
        exists|i: int|
            0 <= i < installed.len() && (#[trigger] installed[i]).component@ == all[at].component,
{
    broadcast use vstd::seq_lib::group_to_multiset_ensures;

    let views = installed_views(installed);
    views.to_multiset_ensures();
    all.to_multiset_ensures();
    assert(all.contains(all[at]));
    assert(all.to_multiset().count(all[at]) > 0);
    assert(views.contains(all[at]));
    let i = choose|i: int| 0 <= i < views.len() && views[i] == all[at];
    assert(installed[i].component@ == all[at].component);
}

} // verus!
