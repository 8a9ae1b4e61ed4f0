//! What the ledger holds after it was put together, repaired or shortened.

use vstd::prelude::*;
use vstd::string::*;

use crate::pack::activation::{borrowed, healthy_packs, ledger_after_removal};
use crate::pack::doctor_laws::is_usable;
use crate::pack::error::PackError;
use crate::pack::import_laws::{
    failure_code, is_adoptable, is_only_adoptable, lemma_adoptable, lemma_healthy,
};
use crate::pack::records::{file_views, BuildInfo, PackReference, ReferenceView, TrackView};
use crate::pack::repair::{
    adopted_pack, check_selected, migrate_digest_state, pack_with, reconstruct_state, reconstructed,
    rehashed, rehashed_entries, repair_plan, RepairPlan,
};
use crate::pack::scan::{installed_views, InstalledPack, InstalledView, PackRole};
use crate::pack::state::{
    collected_tracks, is_ordered, law_with_track, track_of, EntryView, PackState,
};
use crate::selection::lemma_filter;

verus! {

/// The track of an id is that of the first entry with it; without one there is none.
pub proof fn law_tracks_are_found(packs: Seq<EntryView>, id: Seq<char>)
    ensures
        match track_of(packs, id) {
            Some(track) => exists|i: int|
                {
                    &&& 0 <= i < packs.len()
                    &&& (#[trigger] packs[i]).id == id
                    &&& packs[i].track == track
                    &&& forall|j: int| 0 <= j < i ==> (#[trigger] packs[j]).id != id
                },
            None => forall|i: int| 0 <= i < packs.len() ==> (#[trigger] packs[i]).id != id,
        },
    decreases packs.len(),
{
    if packs.len() > 0 {
        let rest = packs.drop_first();
        if packs[0].id != id {
            law_tracks_are_found(rest, id);
            match track_of(rest, id) {
                Some(track) => {
                    let i = choose|i: int|
                        {
                            &&& 0 <= i < rest.len()
                            &&& (#[trigger] rest[i]).id == id
                            &&& rest[i].track == track
                            &&& forall|j: int| 0 <= j < i ==> (#[trigger] rest[j]).id != id
                        };
                    assert(packs[i + 1] == rest[i]);
                    assert forall|j: int| 0 <= j < i + 1 implies (#[trigger] packs[j]).id != id by {
                        if j > 0 {
                            assert(rest[j - 1] == packs[j]);
                        }
                    }
                },
                None => {
                    assert forall|i: int| 0 <= i < packs.len() implies (#[trigger] packs[i]).id
                        != id by {
                        if i > 0 {
                            assert(rest[i - 1] == packs[i]);
                        }
                    }
                },
            }
        }
    }
}

/// Entries in any order make up an ordered ledger, in which each id has the track of its last entry.
pub proof fn law_last_entries_count(entries: Seq<EntryView>, id: Seq<char>)
    ensures
        is_ordered(collected_tracks(entries)),
        track_of(collected_tracks(entries), id) is None ==> forall|i: int|
            0 <= i < entries.len() ==> (#[trigger] entries[i]).id != id,
        track_of(collected_tracks(entries), id) matches Some(track) ==> exists|i: int|
            {
                &&& 0 <= i < entries.len()
                &&& (#[trigger] entries[i]).id == id
                &&& entries[i].track == track
                &&& forall|j: int| i < j < entries.len() ==> (#[trigger] entries[j]).id != id
            },
    decreases entries.len(),
{
    if entries.len() > 0 {
        let rest = entries.drop_last();
        let last = entries.last();
        law_last_entries_count(rest, id);
        law_with_track(collected_tracks(rest), last.id, last.track, id);
        if last.id == id {
            assert(entries[entries.len() - 1].id == id);
        } else {
            match track_of(collected_tracks(rest), id) {
                Some(track) => {
                    let i = choose|i: int|
                        {
                            &&& 0 <= i < rest.len()
                            &&& (#[trigger] rest[i]).id == id
                            &&& rest[i].track == track
                            &&& forall|j: int|
                                i < j < rest.len() ==> (#[trigger] rest[j]).id != id
                        };
                    assert(entries[i] == rest[i]);
                    assert forall|j: int| i < j < entries.len() implies (#[trigger] entries[j]).id
                        != id by {
                        if j < rest.len() {
                            assert(rest[j] == entries[j]);
                        }
                    }
                },
                None => {
                    assert forall|i: int| 0 <= i < entries.len() implies (#[trigger] entries[i]).id
                        != id by {
                        if i < rest.len() {
                            assert(rest[i] == entries[i]);
                        }
                    }
                },
            }
        }
    }
}

/// Removing a pack changes the ledger if and only if the pack is active, or the ledger keeps its
/// component as the previous pack of the id; in that case the previous pack is gone, and the active one
/// stays.
pub proof fn law_removal_retires_the_pack(
    packs: Seq<EntryView>,
    id: Seq<char>,
    target: InstalledPack,
)
    requires
        is_ordered(packs),
    ensures
        ({
            let (after, changed) = ledger_after_removal(packs, id, target@);
            let kept = track_of(packs, id) matches Some(track) && (
            track.previous matches Some(previous) && previous.component == target.component@);
            &&& changed <==> target.role == PackRole::Active || kept
            &&& target.role == PackRole::Active ==> track_of(after, id) is None
            &&& target.role != PackRole::Active && kept ==> (track_of(packs, id) matches Some(before)
                && (track_of(after, id) matches Some(now) && now.active == before.active
                && now.previous is None))
            &&& !changed ==> after == packs
        }),
{
    crate::pack::activation::law_removal_is_confined(packs, id, target@, id);
}

/// A ledger that cannot be read is made anew; one that does not know the files of a pack takes them
/// from the packs; any other needs no repair.
pub proof fn law_repairs_are_called_for(loaded: Option<&PackState>, plan: RepairPlan)
    requires
        call_ensures(repair_plan, (loaded,), plan),
    ensures
        plan == RepairPlan::Reconstruct <==> loaded is None,
        plan == RepairPlan::Migrate <==> (loaded matches Some(state) && exists|i: int|
            0 <= i < state.packs@.len() && ((#[trigger] state.packs@[i]).track.active.files@.len()
                == 0 || (state.packs@[i].track.previous matches Some(previous)
                && previous.files@.len() == 0))),
{
    if let Some(state) = loaded {
        let views = state@.packs;
        assert forall|i: int| 0 <= i < state.packs@.len() implies
            crate::pack::repair::lacks_digests((#[trigger] views[i]).track) == (
        state.packs@[i].track.active.files@.len() == 0 || (
        state.packs@[i].track.previous matches Some(previous) && previous.files@.len() == 0)) by {
            let track = state.packs@[i].track;
            assert(views[i].track == track@);
            assert(file_views(track.active.files@).len() == track.active.files@.len());
            if let Some(previous) = track.previous {
                assert(file_views(previous.files@).len() == previous.files@.len());
            }
        }
        if crate::pack::repair::is_before_digests(state@) {
            let i = choose|i: int|
                0 <= i < views.len() && crate::pack::repair::lacks_digests(
                    (#[trigger] views[i]).track,
                );
            assert(state.packs@[i].track.active.files@.len() == 0 || (
            state.packs@[i].track.previous matches Some(previous) && previous.files@.len() == 0));
        }
        if exists|i: int|
            0 <= i < state.packs@.len() && ((#[trigger] state.packs@[i]).track.active.files@.len()
                == 0 || (state.packs@[i].track.previous matches Some(previous)
                && previous.files@.len() == 0)) {
            let i = choose|i: int|
                0 <= i < state.packs@.len() && ((
                #[trigger] state.packs@[i]).track.active.files@.len() == 0 || (
                state.packs@[i].track.previous matches Some(previous) && previous.files@.len()
                    == 0));
            assert(crate::pack::repair::lacks_digests(views[i].track));
        }
    }
}

/// A component can be selected for a repair if and only if the first installed pack with it is
/// healthy.
pub proof fn law_selected_components_are_healthy(
    installed: &Vec<InstalledPack>,
    selected: Option<&str>,
    result: Result<(), PackError>,
)
    requires
        call_ensures(check_selected, (installed, selected), result),
    ensures
        result is Ok <==> (selected matches Some(component) ==> is_usable(
            installed@,
            component@,
        )),
        result matches Err(error) ==> failure_code(error) == Some("pack_unhealthy"@),
{
    if let Some(component) = selected {
        crate::pack::doctor_laws::lemma_pack_with(installed@, component@);
    }
}

/// Whether a pack is what a repair makes active for its id: it is healthy, and it was selected, or no
/// healthy pack of the id was, and it is the only healthy one.
pub open spec fn is_chosen(
    installed: Seq<InstalledPack>,
    selected: Option<&str>,
    at: int,
) -> bool {
    &&& 0 <= at < installed.len()
    &&& installed[at].healthy
    &&& {
        ||| selected matches Some(component) && installed[at].component@ == component@
        ||| is_only_adoptable(installed, installed[at].id@, at)
    }
}

proof fn lemma_first_with(installed: Seq<InstalledView>, component: Seq<char>)
    ensures
        pack_with(installed, component) matches Some(pack) ==> pack.component == component
            && installed.contains(pack),
        pack_with(installed, component) is None ==> forall|i: int|
            0 <= i < installed.len() ==> (#[trigger] installed[i]).component != component,
    decreases installed.len(),
{
    if installed.len() > 0 {
        let rest = installed.drop_first();
        lemma_first_with(rest, component);
        if installed[0].component == component {
            assert(installed.contains(installed[0]));
        } else {
            if let Some(pack) = pack_with(rest, component) {
                let k = choose|k: int| 0 <= k < rest.len() && rest[k] == pack;
                assert(installed[k + 1] == pack);
            } else {
                assert forall|i: int| 0 <= i < installed.len() implies (
                #[trigger] installed[i]).component != component by {
                    if i > 0 {
                        assert(rest[i - 1] == installed[i]);
                    }
                }
            }
        }
    }
}

proof fn lemma_adopted(installed: Seq<InstalledPack>, id: Seq<char>, selected: Option<&str>)
    ensures
        match adopted_pack(installed_views(installed), id, borrowed(selected)) {
            Some(pack) => exists|at: int|
                #[trigger] is_chosen(installed, selected, at) && installed[at].id@ == id
                    && installed[at]@ == pack,
            None => forall|at: int|
                0 <= at < installed.len() && (#[trigger] installed[at]).id@ == id ==> !is_chosen(
                    installed,
                    selected,
                    at,
                ),
        },
{
    let views = installed_views(installed);
    let group = healthy_packs(views, id);
    let wanted = |pack: InstalledView| pack.id == id && pack.healthy;
    lemma_healthy(views, id);
    assert(group == views.filter(wanted));
    let positions = lemma_filter(views, wanted);
    let only = lemma_adoptable(installed, id);
    assert forall|i: int| 0 <= i < installed.len() implies views[i] == (#[trigger] installed[i])@ by {
    }
    assert forall|k: int| 0 <= k < group.len() implies 0 <= positions[k] < installed.len()
        && #[trigger] group[k] == installed[positions[k]]@ && is_adoptable(
        installed[positions[k]],
        id,
    ) by {
        assert(positions.contains(positions[k]));
        assert(wanted(views[positions[k]]));
    }
    if let Some(component) = selected {
        lemma_first_with(group, component@);
    }
    match adopted_pack(views, id, borrowed(selected)) {
        Some(pack) => {
            if selected is Some && pack_with(group, selected->0@) is Some {
                let k = choose|k: int| 0 <= k < group.len() && group[k] == pack;
                assert(is_chosen(installed, selected, positions[k]));
            } else {
                assert(group.len() == 1);
                assert(is_chosen(installed, selected, only));
            }
        },
        None => {
            assert(group.len() != 1);
            assert forall|at: int|
                0 <= at < installed.len() && (#[trigger] installed[at]).id@
                    == id implies !is_chosen(installed, selected, at) by {
                if is_chosen(installed, selected, at) {
                    assert(wanted(views[at]));
                    let k = choose|k: int| 0 <= k < positions.len() && positions[k] == at;
                    assert(group[k] == installed[at]@);
                    if is_only_adoptable(installed, id, at) {
                        if group.len() > 1 {
                            let other = if k == 0 {
                                1int
                            } else {
                                0int
                            };
                            assert(positions[other] != positions[k]) by {
                                if other < k {
                                    assert(positions[other] < positions[k]);
                                } else {
                                    assert(positions[k] < positions[other]);
                                }
                            }
                            assert(group[other] == installed[positions[other]]@);
                            assert(is_adoptable(installed[positions[other]], id));
                        }
                    } else {
                        assert(group[k].component == selected->0@);
                    }
                }
            }
        },
    }
}

proof fn lemma_reconstructed(
    installed: Seq<InstalledPack>,
    selected: Option<&str>,
    build: BuildInfo,
    end: nat,
    id: Seq<char>,
)
    requires
        end <= installed.len(),
    ensures
        ({
            let packs = reconstructed(installed_views(installed), borrowed(selected), build, end);
            let chosen = adopted_pack(installed_views(installed), id, borrowed(selected));
            &&& is_ordered(packs)
            &&& track_of(packs, id) matches Some(track) ==> track.previous is None && (
            chosen matches Some(pack) && track.active
                == crate::pack::scan::adopted_reference(pack, build))
            &&& track_of(packs, id) is None ==> forall|i: int|
                0 <= i < end && (#[trigger] installed[i]).id@ == id && installed[i].healthy
                    ==> chosen is None
        }),
    decreases end,
{
    if end > 0 {
        lemma_reconstructed(installed, selected, build, (end - 1) as nat, id);
        let views = installed_views(installed);
        let earlier = reconstructed(views, borrowed(selected), build, (end - 1) as nat);
        let pack = views[end - 1];
        assert(pack == installed[end - 1]@);
        if pack.healthy {
            if let Some(chosen) = adopted_pack(views, pack.id, borrowed(selected)) {
                law_with_track(
                    earlier,
                    pack.id,
                    TrackView {
                        active: crate::pack::scan::adopted_reference(chosen, build),
                        previous: None,
                    },
                    id,
                );
            }
        }
    }
}

/// A ledger that is made anew has a track for an id if and only if a pack of it is chosen: one that is
/// healthy and was selected, or the only healthy one. Its active pack is such a one, as it was found,
/// and it has no previous pack.
pub proof fn law_reconstruction_is_unambiguous(
    installed: &Vec<InstalledPack>,
    selected: Option<&str>,
    build: &BuildInfo,
    result: (PackState, Vec<PackReference>),
    id: Seq<char>,
)
    requires
        call_ensures(reconstruct_state, (installed, selected, build), result),
    ensures
        is_ordered(result.0@.packs),
        match track_of(result.0@.packs, id) {
            Some(track) => track.previous is None && exists|at: int|
                {
                    &&& #[trigger] is_chosen(installed@, selected, at)
                    &&& installed@[at].id@ == id
                    &&& track.active.id == id
                    &&& track.active.component == installed@[at].component@
                    &&& track.active.version == installed@[at].version@
                    &&& track.active.format == installed@[at].format
                    &&& track.active.dimensions == installed@[at].dimensions
                    &&& track.active.bytes == installed@[at].bytes
                    &&& track.active.files == file_views(installed@[at].files@)
                },
            None => forall|at: int|
                0 <= at < installed@.len() && (#[trigger] installed@[at]).id@ == id ==> !is_chosen(
                    installed@,
                    selected,
                    at,
                ),
        },
{
    lemma_reconstructed(installed@, selected, *build, installed@.len(), id);
    lemma_adopted(installed@, id, selected);
}

/// Whether a reference gets the files of the first installed pack with its component: it is healthy and
/// has the recorded id, version, format and size of embeddings.
pub open spec fn is_rehashed(
    before: ReferenceView,
    installed: Seq<InstalledPack>,
    after: ReferenceView,
) -> bool {
    exists|at: int|
        {
            &&& 0 <= at < installed.len()
            &&& (#[trigger] installed[at]).component@ == before.component
            &&& forall|j: int|
                0 <= j < at ==> (#[trigger] installed[j]).component@ != before.component
            &&& installed[at].healthy
            &&& installed[at].id@ == before.id
            &&& installed[at].version@ == before.version
            &&& installed[at].format == before.format
            &&& installed[at].dimensions == before.dimensions
            &&& after.component == before.component
            &&& after.id == before.id
            &&& after.version == before.version
            &&& after.format == before.format
            &&& after.dimensions == before.dimensions
            &&& after.installed_by == before.installed_by
            &&& after.runtime_api_minor == before.runtime_api_minor
            &&& after.runtime_version == before.runtime_version
            &&& after.bytes == installed[at].bytes
            &&& after.files == file_views(installed[at].files@)
        }
}

proof fn lemma_found(installed: Seq<InstalledPack>, component: Seq<char>) -> (at: int)
    ensures
        pack_with(installed_views(installed), component) matches Some(pack) ==> {
            &&& 0 <= at < installed.len()
            &&& installed[at]@ == pack
            &&& installed[at].component@ == component
            &&& forall|j: int| 0 <= j < at ==> (#[trigger] installed[j]).component@ != component
        },
        pack_with(installed_views(installed), component) is None ==> forall|j: int|
            0 <= j < installed.len() ==> (#[trigger] installed[j]).component@ != component,
    decreases installed.len(),
{
    if installed.len() == 0 {
        0
    } else {
        let rest = installed.drop_first();
        let views = installed_views(installed);
        assert(views[0] == installed[0]@);
        assert(views.drop_first() =~= installed_views(rest));
        if installed[0].component@ == component {
            0
        } else {
            let at = lemma_found(rest, component);
            assert forall|j: int|
                0 <= j < installed.len() && (j < at + 1 || pack_with(
                    installed_views(rest),
                    component,
                ) is None) implies (#[trigger] installed[j]).component@ != component by {
                if j > 0 {
                    assert(rest[j - 1] == installed[j]);
                }
            }
            at + 1
        }
    }
}

proof fn lemma_rehashed(before: ReferenceView, installed: Seq<InstalledPack>)
    ensures
        match rehashed(before, installed_views(installed)) {
            Ok(after) => is_rehashed(before, installed, after),
            Err(_) => forall|after: ReferenceView| !is_rehashed(before, installed, after),
        },
{
    let at = lemma_found(installed, before.component);
    match rehashed(before, installed_views(installed)) {
        Ok(after) => {
            assert(installed[at].component@ == before.component);
        },
        Err(_) => {
            assert forall|after: ReferenceView| !is_rehashed(before, installed, after) by {
                if is_rehashed(before, installed, after) {
                    let other = choose|other: int|
                        {
                            &&& 0 <= other < installed.len()
                            &&& (#[trigger] installed[other]).component@ == before.component
                            &&& forall|j: int|
                                0 <= j < other ==> (#[trigger] installed[j]).component@
                                    != before.component
                            &&& installed[other].healthy
                            &&& installed[other].id@ == before.id
                            &&& installed[other].version@ == before.version
                            &&& installed[other].format == before.format
                            &&& installed[other].dimensions == before.dimensions
                            &&& after.component == before.component
                            &&& after.id == before.id
                            &&& after.version == before.version
                            &&& after.format == before.format
                            &&& after.dimensions == before.dimensions
                            &&& after.installed_by == before.installed_by
                            &&& after.runtime_api_minor == before.runtime_api_minor
                            &&& after.runtime_version == before.runtime_version
                            &&& after.bytes == installed[other].bytes
                            &&& after.files == file_views(installed[other].files@)
                        };
                    if at < other {
                        assert(installed[at].component@ != before.component);
                    }
                    if other < at {
                        assert(installed[other].component@ != before.component);
                    }
                    assert(at == other);
                }
            }
        },
    }
}

proof fn lemma_rehashed_entries(packs: Seq<EntryView>, installed: Seq<InstalledPack>)
    ensures
        rehashed_entries(packs, installed_views(installed)) matches Ok(after) ==> {
            &&& after.len() == packs.len()
            &&& forall|i: int|
                0 <= i < packs.len() ==> {
                    &&& (#[trigger] after[i]).id == packs[i].id
                    &&& is_rehashed(packs[i].track.active, installed, after[i].track.active)
                    &&& match (packs[i].track.previous, after[i].track.previous) {
                        (Some(before), Some(now)) => is_rehashed(before, installed, now),
                        (None, None) => true,
                        _ => false,
                    }
                }
        },
        rehashed_entries(packs, installed_views(installed)) is Err ==> exists|i: int|
            0 <= i < packs.len() && is_stuck((#[trigger] packs[i]).track, installed),
    decreases packs.len(),
{
    if packs.len() > 0 {
        let rest = packs.drop_last();
        let last = packs.last();
        lemma_rehashed_entries(rest, installed);
        lemma_rehashed(last.track.active, installed);
        if let Some(previous) = last.track.previous {
            lemma_rehashed(previous, installed);
        }
        let views = installed_views(installed);
        match rehashed_entries(packs, views) {
            Ok(after) => {
                let earlier = rehashed_entries(rest, views)->Ok_0;
                assert forall|i: int| 0 <= i < packs.len() implies {
                    &&& (#[trigger] after[i]).id == packs[i].id
                    &&& is_rehashed(packs[i].track.active, installed, after[i].track.active)
                    &&& match (packs[i].track.previous, after[i].track.previous) {
                        (Some(before), Some(now)) => is_rehashed(before, installed, now),
                        (None, None) => true,
                        _ => false,
                    }
                } by {
                    if i < rest.len() {
                        assert(after[i] == earlier[i]);
                        assert(rest[i] == packs[i]);
                    }
                }
            },
            Err(_) => {
                if rehashed_entries(rest, views) is Err {
                    let i = choose|i: int|
                        0 <= i < rest.len() && is_stuck((#[trigger] rest[i]).track, installed);
                    assert(packs[i] == rest[i]);
                } else {
                    assert(is_stuck(packs[packs.len() - 1].track, installed));
                }
            },
        }
    }
}

/// Whether a pack of a track does not get its files.
pub open spec fn is_stuck(track: TrackView, installed: Seq<InstalledPack>) -> bool {
    ||| forall|after: ReferenceView| !is_rehashed(track.active, installed, after)
    ||| track.previous matches Some(previous) && forall|after: ReferenceView|
        !is_rehashed(previous, installed, after)
}

/// A ledger takes over the files of its packs as a whole: every pack gets those of the first installed
/// pack with its component, which is healthy and of the recorded identity, and nothing else of the
/// ledger changes. It fails if and only if a pack does not get its files.
pub proof fn law_migration_is_complete(
    state: &PackState,
    installed: &Vec<InstalledPack>,
    result: Result<(PackState, Vec<PackReference>), PackError>,
)
    requires
        call_ensures(migrate_digest_state, (state, installed), result),
    ensures
        result matches Ok((migrated, _)) ==> {
            &&& migrated@.format == state@.format
            &&& migrated@.written_by == state@.written_by
            &&& migrated@.packs.len() == state@.packs.len()
            &&& forall|i: int|
                0 <= i < state@.packs.len() ==> {
                    &&& (#[trigger] migrated@.packs[i]).id == state@.packs[i].id
                    &&& is_rehashed(
                        state@.packs[i].track.active,
                        installed@,
                        migrated@.packs[i].track.active,
                    )
                    &&& match (state@.packs[i].track.previous, migrated@.packs[i].track.previous) {
                        (Some(before), Some(now)) => is_rehashed(before, installed@, now),
                        (None, None) => true,
                        _ => false,
                    }
                }
        },
        result is Err ==> exists|i: int|
            0 <= i < state@.packs.len() && is_stuck((#[trigger] state@.packs[i]).track, installed@),
{
    lemma_rehashed_entries(state@.packs, installed@);
}

} // verus!
