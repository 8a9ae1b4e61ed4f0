//! Repairing a ledger that cannot be read, or that does not know the files of its packs.

use vstd::prelude::*;
use vstd::string::*;

use crate::pack::activation::{borrowed, healthy_packs};
use crate::pack::error::{coded, PackError, PackErrorView};
use crate::pack::records::{
    copy_files, file_views, reference_views, BuildInfo, PackReference, PackTrack, ReferenceView,
    TrackView,
};
use crate::pack::scan::{adopted_reference, installed_views, InstalledPack, InstalledView};
use crate::pack::state::{
    empty_state, entry_views, is_ordered, law_with_track, lemma_with_track_entries, with_track,
    EntryView, PackState, StateView, TrackEntry,
};
use crate::text;
use crate::text::precedes;

verus! {

/// Whether a track has a pack whose files are not recorded.
pub open spec fn lacks_digests(track: TrackView) -> bool {
    ||| track.active.files.len() == 0
    ||| track.previous matches Some(previous) && previous.files.len() == 0
}

/// Tells whether a ledger has a pack whose files are not recorded.
pub fn state_needs_digest_migration(state: &PackState) -> (needed: bool)
    ensures
        needed == is_before_digests(state@),
{
    let ghost views = state@.packs;
    let mut position: usize = 0;
    while position < state.packs.len()
        invariant
            views == entry_views(state.packs@),
            position <= state.packs@.len(),
            forall|i: int| 0 <= i < position ==> !lacks_digests((#[trigger] views[i]).track),
        decreases state.packs@.len() - position,
    {
        let track = &state.packs[position].track;
        assert(views[position as int].track == track@);
        assert(file_views(track.active.files@).len() == track.active.files@.len());
        let previous_lacks = match &track.previous {
            Some(previous) => {
                assert(file_views(previous.files@).len() == previous.files@.len());
                previous.files.len() == 0
            },
            None => false,
        };
        if track.active.files.len() == 0 || previous_lacks {
            assert(lacks_digests(views[position as int].track));
            return true;
        }
        position = position + 1;
    }
    false
}

/// Whether a ledger has a pack whose files are not recorded.
pub open spec fn is_before_digests(state: StateView) -> bool {
    exists|i: int| 0 <= i < state.packs.len() && lacks_digests((#[trigger] state.packs[i]).track)
}

/// How a ledger is repaired.
#[derive(Debug, Clone, Copy, PartialEq, Eq, Structural)]
pub enum RepairPlan {
    /// The ledger cannot be read and is made anew from the packs that are there.
    Reconstruct,
    /// The ledger does not know the files of all its packs and takes them from the packs.
    Migrate,
    /// The ledger needs no repair.
    NotNeeded,
}

/// Decides how a ledger is repaired; `None` stands for one that cannot be read.
pub fn repair_plan(loaded: Option<&PackState>) -> (plan: RepairPlan)
    ensures
        match loaded {
            None => plan == RepairPlan::Reconstruct,
            Some(state) => if is_before_digests(state@) {
                plan == RepairPlan::Migrate
            } else {
                plan == RepairPlan::NotNeeded
            },
        },
{
    match loaded {
        None => RepairPlan::Reconstruct,
        Some(state) => if state_needs_digest_migration(state) {
            RepairPlan::Migrate
        } else {
            RepairPlan::NotNeeded
        },
    }
}

/// The failure of a repair that nothing calls for.
pub fn repair_not_needed() -> (error: PackError)
    ensures
        error@ == coded(
            "state_not_corrupt"@,
            "model-pack state is already valid and contains integrity digests"@,
            "use list or doctor instead; repair is reserved for an unreadable or pre-digest ledger"@,
        ),
{
    PackError::coded(
        "state_not_corrupt",
        "model-pack state is already valid and contains integrity digests",
        "use list or doctor instead; repair is reserved for an unreadable or pre-digest ledger",
    )
}

/// The first installed pack with a component.
pub open spec fn pack_with(installed: Seq<InstalledView>, component: Seq<char>) -> Option<
    InstalledView,
>
    decreases installed.len(),
{
    if installed.len() == 0 {
        None
    } else if installed[0].component == component {
        Some(installed[0])
    } else {
        pack_with(installed.drop_first(), component)
    }
}

/// Finds the first installed pack with a component.
pub fn find_pack<'a>(installed: &'a Vec<InstalledPack>, component: &str) -> (pack: Option<
    &'a InstalledPack,
>)
    ensures
        match (pack, pack_with(installed_views(installed@), component@)) {
            (Some(pack), Some(expected)) => pack@ == expected,
            (None, None) => true,
            _ => false,
        },
{
    let ghost views = installed_views(installed@);
    let mut position: usize = 0;
    assert(views.skip(0) =~= views);
    while position < installed.len()
        invariant
            views == installed_views(installed@),
            position <= installed@.len(),
            pack_with(views, component@) == pack_with(views.skip(position as int), component@),
        decreases installed@.len() - position,
    {
        let pack = &installed[position];
        proof {
            assert(views.skip(position as int)[0] == pack@);
            assert(views.skip(position as int).drop_first() =~= views.skip(position + 1));
        }
        if text::same(pack.component.as_str(), component) {
            return Some(pack);
        }
        position = position + 1;
    }
    None
}

/// Checks the component that a repair was told to adopt, if it was told one.
pub fn check_selected(installed: &Vec<InstalledPack>, selected: Option<&str>) -> (result: Result<
    (),
    PackError,
>)
    ensures
        match selected {
            None => result is Ok,
            Some(component) => match pack_with(installed_views(installed@), component@) {
                Some(pack) if pack.healthy => result is Ok,
                _ => result matches Err(error) && error@ == coded(
                    "pack_unhealthy"@,
                    "selected repair component "@ + component@ + " is missing or invalid"@,
                    "run doctor without repair and select a healthy component reported by list"@,
                ),
            },
        },
{
    if let Some(component) = selected {
        let healthy = match find_pack(installed, component) {
            Some(pack) => pack.healthy,
            None => false,
        };
        if !healthy {
            let message = text::join(
                text::join("selected repair component ", component).as_str(),
                " is missing or invalid",
            );
            return Err(
                PackError::coded(
                    "pack_unhealthy",
                    message.as_str(),
                    "run doctor without repair and select a healthy component reported by list",
                ),
            );
        }
    }
    Ok(())
}

/// A reference with the files of the component that it leads to, or why it does not get them.
pub open spec fn rehashed(reference: ReferenceView, installed: Seq<InstalledView>) -> Result<
    ReferenceView,
    PackErrorView,
> {
    let failure = coded(
        "pack_unhealthy"@,
        "pre-digest ledger component "@ + reference.component
            + " is missing, invalid, or has a different identity"@,
        "restore the recorded component before repair, or reinstall a verified pack and rebuild state"@,
    );
    match pack_with(installed, reference.component) {
        None => Err(failure),
        Some(pack) => if pack.healthy && pack.id == reference.id && pack.version
            == reference.version && pack.format == reference.format && pack.dimensions
            == reference.dimensions {
            Ok(ReferenceView { bytes: pack.bytes, files: pack.files, ..reference })
        } else {
            Err(failure)
        },
    }
}

/// Gives a reference the files of the component that it leads to.
pub fn rehash_reference(reference: &PackReference, installed: &Vec<InstalledPack>) -> (migrated:
    Result<PackReference, PackError>)
    ensures
        match (migrated, rehashed(reference@, installed_views(installed@))) {
            (Ok(migrated), Ok(expected)) => migrated@ == expected,
            (Err(error), Err(expected)) => error@ == expected,
            _ => false,
        },
{
    if let Some(pack) = find_pack(installed, reference.component.as_str()) {
        if pack.healthy && text::same(pack.id.as_str(), reference.id.as_str()) && text::same(
            pack.version.as_str(),
            reference.version.as_str(),
        ) && pack.format == reference.format && pack.dimensions == reference.dimensions {
            let mut migrated = reference.copy();
            migrated.bytes = pack.bytes;
            migrated.files = copy_files(&pack.files);
            return Ok(migrated);
        }
    }
    let message = text::join(
        text::join("pre-digest ledger component ", reference.component.as_str()).as_str(),
        " is missing, invalid, or has a different identity",
    );
    Err(
        PackError::coded(
            "pack_unhealthy",
            message.as_str(),
            "restore the recorded component before repair, or reinstall a verified pack and rebuild state",
        ),
    )
}

/// A track with the files of its components.
pub open spec fn rehashed_track(track: TrackView, installed: Seq<InstalledView>) -> Result<
    TrackView,
    PackErrorView,
> {
    match rehashed(track.active, installed) {
        Err(error) => Err(error),
        Ok(active) => match track.previous {
            None => Ok(TrackView { active, previous: None }),
            Some(previous) => match rehashed(previous, installed) {
                Err(error) => Err(error),
                Ok(previous) => Ok(TrackView { active, previous: Some(previous) }),
            },
        },
    }
}

/// The entries with the files of their components; the first that does not get them decides the
/// failure.
pub open spec fn rehashed_entries(packs: Seq<EntryView>, installed: Seq<InstalledView>) -> Result<
    Seq<EntryView>,
    PackErrorView,
>
    decreases packs.len(),
{
    if packs.len() == 0 {
        Ok(Seq::empty())
    } else {
        match rehashed_entries(packs.drop_last(), installed) {
            Err(error) => Err(error),
            Ok(earlier) => match rehashed_track(packs.last().track, installed) {
                Err(error) => Err(error),
                Ok(track) => Ok(earlier.push(EntryView { id: packs.last().id, track })),
            },
        }
    }
}

/// The packs of tracks, the active one of each before its previous one.
pub open spec fn track_references(packs: Seq<EntryView>) -> Seq<ReferenceView>
    decreases packs.len(),
{
    if packs.len() == 0 {
        Seq::empty()
    } else {
        let active = track_references(packs.drop_last()).push(packs.last().track.active);
        match packs.last().track.previous {
            Some(previous) => active.push(previous),
            None => active,
        }
    }
}

fn rehash_track(track: &PackTrack, installed: &Vec<InstalledPack>) -> (result: Result<
    PackTrack,
    PackError,
>)
    ensures
        match (result, rehashed_track(track@, installed_views(installed@))) {
            (Ok(result), Ok(expected)) => result@ == expected,
            (Err(error), Err(expected)) => error@ == expected,
            _ => false,
        },
{
    let active = match rehash_reference(&track.active, installed) {
        Ok(active) => active,
        Err(error) => return Err(error),
    };
    match &track.previous {
        None => Ok(PackTrack { active, previous: None }),
        Some(previous) => match rehash_reference(previous, installed) {
            Ok(previous) => Ok(PackTrack { active, previous: Some(previous) }),
            Err(error) => Err(error),
        },
    }
}

proof fn lemma_rehash_stops(packs: Seq<EntryView>, installed: Seq<InstalledView>, end: int)
    requires
        0 <= end <= packs.len(),
        rehashed_entries(packs.take(end), installed) is Err,
    ensures
        rehashed_entries(packs, installed) == rehashed_entries(packs.take(end), installed),
    decreases packs.len() - end,
{
    if end < packs.len() {
        assert(packs.take(end + 1).drop_last() =~= packs.take(end));
        lemma_rehash_stops(packs, installed, end + 1);
    } else {
        assert(packs.take(end) =~= packs);
    }
}

proof fn lemma_rehash_keeps_ids(packs: Seq<EntryView>, installed: Seq<InstalledView>)
    ensures
        rehashed_entries(packs, installed) matches Ok(after) ==> after.len() == packs.len()
            && forall|i: int|
            0 <= i < after.len() ==> (#[trigger] after[i]).id == packs[i].id,
    decreases packs.len(),
{
    if packs.len() > 0 {
        lemma_rehash_keeps_ids(packs.drop_last(), installed);
    }
}

fn push_references(track: &PackTrack, references: &mut Vec<PackReference>)
    ensures
        reference_views(final(references)@) == match track@.previous {
            Some(previous) => reference_views(old(references)@).push(track@.active).push(previous),
            None => reference_views(old(references)@).push(track@.active),
        },
{
    let ghost before = reference_views(references@);
    references.push(track.active.copy());
    assert(reference_views(references@) =~= before.push(track@.active));
    if let Some(previous) = &track.previous {
        let ghost first = reference_views(references@);
        references.push(previous.copy());
        assert(reference_views(references@) =~= first.push(previous@));
    }
}

/// Records the files of all packs of a ledger that did not know them; returns the ledger and its
/// packs.
pub fn migrate_digest_state(state: &PackState, installed: &Vec<InstalledPack>) -> (result: Result<
    (PackState, Vec<PackReference>),
    PackError,
>)
    ensures
        match (result, rehashed_entries(state@.packs, installed_views(installed@))) {
            (Ok((migrated, adopted)), Ok(expected)) => migrated@ == (StateView {
                packs: expected,
                ..state@
            }) && reference_views(adopted@) == track_references(expected) && (is_ordered(
                state@.packs,
            ) ==> is_ordered(expected)),
            (Err(error), Err(expected)) => error@ == expected,
            _ => false,
        },
{
    let ghost views = state@.packs;
    let ghost found = installed_views(installed@);
    let mut packs: Vec<TrackEntry> = Vec::new();
    let mut adopted: Vec<PackReference> = Vec::new();
    let mut position: usize = 0;
    assert(views.take(0) =~= Seq::<EntryView>::empty());
    assert(entry_views(packs@) =~= Seq::<EntryView>::empty());
    assert(reference_views(adopted@) =~= Seq::<ReferenceView>::empty());
    while position < state.packs.len()
        invariant
            views == entry_views(state.packs@),
            found == installed_views(installed@),
            position <= state.packs@.len(),
            rehashed_entries(views.take(position as int), found) == Ok::<
                Seq<EntryView>,
                PackErrorView,
            >(entry_views(packs@)),
            reference_views(adopted@) == track_references(entry_views(packs@)),
        decreases state.packs@.len() - position,
    {
        let entry = &state.packs[position];
        proof {
            let next = views.take(position + 1);
            assert(next.drop_last() =~= views.take(position as int));
            assert(next.last() == entry@);
        }
        let track = match rehash_track(&entry.track, installed) {
            Ok(track) => track,
            Err(error) => {
                proof {
                    lemma_rehash_stops(views, found, position + 1);
                }
                return Err(error);
            },
        };
        push_references(&track, &mut adopted);
        let ghost before = entry_views(packs@);
        let added = TrackEntry { id: entry.id.clone(), track };
        packs.push(added);
        proof {
            assert(entry_views(packs@) =~= before.push(added@));
            assert(entry_views(packs@).drop_last() =~= before);
        }
        position = position + 1;
    }
    assert(views.take(position as int) =~= views);
    proof {
        lemma_rehash_keeps_ids(views, found);
        let after = entry_views(packs@);
        if is_ordered(views) {
            assert forall|i: int, j: int| 0 <= i < j < after.len() implies precedes(
                (#[trigger] after[i]).id,
                (#[trigger] after[j]).id,
            ) by {
                assert(precedes(views[i].id, views[j].id));
            }
        }
    }
    let migrated = PackState {
        format: state.format,
        written_by: state.written_by.clone(),
        packs,
    };
    Ok((migrated, adopted))
}

/// The pack of an id that a repair adopts: the one that was selected, or else the only healthy one.
pub open spec fn adopted_pack(
    installed: Seq<InstalledView>,
    id: Seq<char>,
    selected: Option<Seq<char>>,
) -> Option<InstalledView> {
    let group = healthy_packs(installed, id);
    let only = if group.len() == 1 {
        Some(group[0])
    } else {
        None
    };
    match selected {
        Some(component) => match pack_with(group, component) {
            Some(pack) => Some(pack),
            None => only,
        },
        None => only,
    }
}

/// The tracks that a repair makes up from the first `end` installed packs.
pub open spec fn reconstructed(
    installed: Seq<InstalledView>,
    selected: Option<Seq<char>>,
    build: BuildInfo,
    end: nat,
) -> Seq<EntryView>
    decreases end,
{
    if end == 0 {
        Seq::empty()
    } else {
        let earlier = reconstructed(installed, selected, build, (end - 1) as nat);
        let pack = installed[end - 1];
        if !pack.healthy {
            earlier
        } else {
            match adopted_pack(installed, pack.id, selected) {
                Some(chosen) => with_track(
                    earlier,
                    pack.id,
                    TrackView { active: adopted_reference(chosen, build), previous: None },
                ),
                None => earlier,
            }
        }
    }
}

fn collect_healthy<'a>(installed: &'a Vec<InstalledPack>, id: &str) -> (group: Vec<&'a InstalledPack>)
    ensures
        group@.map_values(|pack: &'a InstalledPack| pack@) == healthy_packs(
            installed_views(installed@),
            id@,
        ),
{
    let ghost views = installed_views(installed@);
    let mut group: Vec<&'a InstalledPack> = Vec::new();
    let mut position: usize = 0;
    assert(views.take(0) =~= Seq::<InstalledView>::empty());
    assert(group@.map_values(|pack: &'a InstalledPack| pack@) =~= Seq::<InstalledView>::empty());
    while position < installed.len()
        invariant
            views == installed_views(installed@),
            position <= installed@.len(),
            group@.map_values(|pack: &'a InstalledPack| pack@) == healthy_packs(
                views.take(position as int),
                id@,
            ),
        decreases installed@.len() - position,
    {
        let pack = &installed[position];
        proof {
            let next = views.take(position + 1);
            assert(next.drop_last() =~= views.take(position as int));
            assert(next.last() == pack@);
        }
        if text::same(pack.id.as_str(), id) && pack.healthy {
            let ghost before = group@;
            group.push(pack);
            assert(group@.map_values(|pack: &'a InstalledPack| pack@) =~= before.map_values(
                |pack: &'a InstalledPack| pack@,
            ).push(pack@));
        }
        position = position + 1;
    }
    assert(views.take(position as int) =~= views);
    group
}

fn choose_adopted<'a>(
    installed: &'a Vec<InstalledPack>,
    id: &str,
    selected: Option<&str>,
) -> (chosen: Option<&'a InstalledPack>)
    ensures
        match (chosen, adopted_pack(installed_views(installed@), id@, borrowed(selected))) {
            (Some(chosen), Some(expected)) => chosen@ == expected,
            (None, None) => true,
            _ => false,
        },
{
    let group = collect_healthy(installed, id);
    let ghost views = group@.map_values(|pack: &'a InstalledPack| pack@);
    if let Some(component) = selected {
        let mut position: usize = 0;
        assert(views.skip(0) =~= views);
        while position < group.len()
            invariant
                views == group@.map_values(|pack: &'a InstalledPack| pack@),
                views == healthy_packs(installed_views(installed@), id@),
                selected == Some(component),
                position <= group@.len(),
                pack_with(views, component@) == pack_with(views.skip(position as int), component@),
            decreases group@.len() - position,
        {
            let pack = group[position];
            proof {
                assert(views.skip(position as int)[0] == pack@);
                assert(views.skip(position as int).drop_first() =~= views.skip(position + 1));
            }
            if text::same(pack.component.as_str(), component) {
                return Some(pack);
            }
            position = position + 1;
        }
        assert(pack_with(views, component@) is None);
    }
    if group.len() == 1 {
        assert(views[0] == group@[0]@);
        Some(group[0])
    } else {
        None
    }
}

/// Makes up a ledger from what is installed; returns it with the packs that it adopts.
pub fn reconstruct_state(
    installed: &Vec<InstalledPack>,
    selected: Option<&str>,
    build: &BuildInfo,
) -> (result: (PackState, Vec<PackReference>))
    ensures
        result.0@ == (StateView {
            packs: reconstructed(
                installed_views(installed@),
                borrowed(selected),
                *build,
                installed@.len(),
            ),
            ..empty_state(*build)
        }),
        reference_views(result.1@) == track_references(result.0@.packs),
        is_ordered(result.0@.packs),
{
    let ghost views = installed_views(installed@);
    let ghost component = borrowed(selected);
    let mut state = PackState::empty(build);
    let mut position: usize = 0;
    while position < installed.len()
        invariant
            views == installed_views(installed@),
            component == borrowed(selected),
            position <= installed@.len(),
            is_ordered(state@.packs),
            state@ == (StateView {
                packs: reconstructed(views, component, *build, position as nat),
                ..empty_state(*build)
            }),
        decreases installed@.len() - position,
    {
        let pack = &installed[position];
        assert(views[position as int] == pack@);
        if pack.healthy {
            if let Some(chosen) = choose_adopted(installed, pack.id.as_str(), selected) {
                let track = PackTrack { active: chosen.reference(build), previous: None };
                proof {
                    law_with_track(state@.packs, pack@.id, track@, pack@.id);
                }
                state.insert(pack.id.clone(), track);
            }
        }
        position = position + 1;
    }
    let mut adopted: Vec<PackReference> = Vec::new();
    let ghost packs = state@.packs;
    position = 0;
    assert(reference_views(adopted@) =~= track_references(packs.take(0)));
    while position < state.packs.len()
        invariant
            packs == entry_views(state.packs@),
            position <= state.packs@.len(),
            reference_views(adopted@) == track_references(packs.take(position as int)),
        decreases state.packs@.len() - position,
    {
        let entry = &state.packs[position];
        proof {
            let next = packs.take(position + 1);
            assert(next.drop_last() =~= packs.take(position as int));
            assert(next.last() == entry@);
        }
        push_references(&entry.track, &mut adopted);
        position = position + 1;
    }
    assert(packs.take(position as int) =~= packs);
    (state, adopted)
}

proof fn lemma_healthy_members(installed: Seq<InstalledView>, id: Seq<char>)
    ensures
        forall|i: int|
            0 <= i < healthy_packs(installed, id).len() ==> installed.contains(
                #[trigger] healthy_packs(installed, id)[i],
            ) && healthy_packs(installed, id)[i].id == id && healthy_packs(installed, id)[i].healthy,
    decreases installed.len(),
{
    if installed.len() > 0 {
        let shorter = installed.drop_last();
        let group = healthy_packs(installed, id);
        let earlier = healthy_packs(shorter, id);
        lemma_healthy_members(shorter, id);
        assert forall|i: int| 0 <= i < group.len() implies installed.contains(#[trigger] group[i])
            && group[i].id == id && group[i].healthy by {
            if i < earlier.len() {
                assert(group[i] == earlier[i]);
                let k = choose|k: int| 0 <= k < shorter.len() && shorter[k] == earlier[i];
                assert(installed[k] == group[i]);
            } else {
                assert(installed[installed.len() - 1] == group[i]);
            }
        }
    }
}

proof fn lemma_pack_with_member(packs: Seq<InstalledView>, component: Seq<char>)
    ensures
        pack_with(packs, component) matches Some(pack) ==> packs.contains(pack) && pack.component
            == component,
    decreases packs.len(),
{
    if packs.len() > 0 {
        if packs[0].component == component {
            assert(packs.contains(packs[0]));
        } else {
            lemma_pack_with_member(packs.drop_first(), component);
            if let Some(pack) = pack_with(packs.drop_first(), component) {
                let k = choose|k: int|
                    0 <= k < packs.drop_first().len() && packs.drop_first()[k] == pack;
                assert(packs[k + 1] == pack);
            }
        }
    }
}

/// Whether an entry makes a healthy installed pack of its id active, with no previous one.
pub open spec fn adopts_healthy(
    installed: Seq<InstalledView>,
    build: BuildInfo,
    entry: EntryView,
) -> bool {
    exists|i: int|
        0 <= i < installed.len() && (#[trigger] installed[i]).healthy && installed[i].id == entry.id
            && entry.track == (TrackView {
            active: adopted_reference(installed[i], build),
            previous: None,
        })
}

proof fn lemma_adopted_is_healthy(
    installed: Seq<InstalledView>,
    id: Seq<char>,
    selected: Option<Seq<char>>,
    build: BuildInfo,
)
    ensures
        adopted_pack(installed, id, selected) matches Some(pack) ==> adopts_healthy(
            installed,
            build,
            EntryView {
                id,
                track: TrackView { active: adopted_reference(pack, build), previous: None },
            },
        ),
{
    let group = healthy_packs(installed, id);
    lemma_healthy_members(installed, id);
    if let Some(component) = selected {
        lemma_pack_with_member(group, component);
    }
    if let Some(pack) = adopted_pack(installed, id, selected) {
        let j = choose|j: int| 0 <= j < group.len() && group[j] == pack;
        assert(group.contains(pack)) by {
            if group.len() == 1 {
                assert(group[0] == group[0]);
            }
        }
        assert(installed.contains(group[j]));
        let k = choose|k: int| 0 <= k < installed.len() && installed[k] == pack;
        assert(installed[k].healthy && installed[k].id == id);
    }
}

/// A ledger that is made up from what is installed has only healthy packs in it, each under its own
/// id.
pub proof fn law_reconstruction_adopts_healthy(
    installed: Seq<InstalledView>,
    selected: Option<Seq<char>>,
    build: BuildInfo,
    end: nat,
)
    requires
        end <= installed.len(),
    ensures
        forall|i: int|
            0 <= i < reconstructed(installed, selected, build, end).len() ==> adopts_healthy(
                installed,
                build,
                #[trigger] reconstructed(installed, selected, build, end)[i],
            ),
    decreases end,
{
    if end > 0 {
        let earlier = reconstructed(installed, selected, build, (end - 1) as nat);
        let pack = installed[end - 1];
        law_reconstruction_adopts_healthy(installed, selected, build, (end - 1) as nat);
        if pack.healthy {
            lemma_adopted_is_healthy(installed, pack.id, selected, build);
            if let Some(chosen) = adopted_pack(installed, pack.id, selected) {
                let track = TrackView {
                    active: adopted_reference(chosen, build),
                    previous: None,
                };
                let result = with_track(earlier, pack.id, track);
                lemma_with_track_entries(earlier, pack.id, track);
                assert forall|i: int| 0 <= i < result.len() implies adopts_healthy(
                    installed,
                    build,
                    #[trigger] result[i],
                ) by {
                    if result[i] != (EntryView { id: pack.id, track }) {
                        let j = choose|j: int| 0 <= j < earlier.len() && earlier[j] == result[i];
                        assert(adopts_healthy(installed, build, earlier[j]));
                    }
                }
            }
        }
    }
}

} // verus!
