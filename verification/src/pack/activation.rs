//! Changing which packs are active: installing, rolling back and removing.

use vstd::prelude::*;
use vstd::string::*;

use crate::pack::command::ImportMode;
use crate::pack::error::{coded, PackError, PackErrorView};
use crate::pack::records::{
    installed_reference, BuildInfo, MetadataView, PackMetadata, PackReference, PackTrack, TrackView,
};
use crate::pack::scan::{adopted_reference, installed_views, InstalledPack, InstalledView, PackRole};
use crate::pack::state::{
    is_ordered, law_with_track, law_without_track, track_of, with_track, without_track, EntryView,
    PackState, StateView,
};
use crate::text;

verus! {

/// The healthy packs of an id, in the order in which they are listed.
pub open spec fn healthy_packs(installed: Seq<InstalledView>, id: Seq<char>) -> Seq<InstalledView>
    decreases installed.len(),
{
    if installed.len() == 0 {
        Seq::empty()
    } else {
        let earlier = healthy_packs(installed.drop_last(), id);
        let last = installed.last();
        if last.id == id && last.healthy {
            earlier.push(last)
        } else {
            earlier
        }
    }
}

/// The track that an import goes on from: the recorded one, or else the only healthy pack of the
/// id. An update or a replacement needs one.
pub open spec fn prior_track_of(
    packs: Seq<EntryView>,
    installed: Seq<InstalledView>,
    id: Seq<char>,
    mode: ImportMode,
    build: BuildInfo,
) -> Result<Option<TrackView>, PackErrorView> {
    let adoptable = healthy_packs(installed, id);
    match track_of(packs, id) {
        Some(track) => Ok(Some(track)),
        None => if adoptable.len() == 1 {
            Ok(
                Some(
                    TrackView { active: adopted_reference(adoptable[0], build), previous: None },
                ),
            )
        } else if mode == ImportMode::Install {
            Ok(None)
        } else if adoptable.len() == 0 {
            Err(
                coded(
                    "pack_not_installed"@,
                    "model pack "@ + id + " has no active installation"@,
                    "run --pack-status and use --install-pack to establish an explicit active version"@,
                ),
            )
        } else {
            Err(
                coded(
                    "pack_state_ambiguous"@,
                    "model pack "@ + id + " has multiple untracked installations"@,
                    "run --pack-status and use --install-pack to establish an explicit active version"@,
                ),
            )
        },
    }
}

/// Why a version cannot be imported over the active one.
pub open spec fn version_fault(
    metadata: MetadataView,
    prior: Option<TrackView>,
    mode: ImportMode,
) -> Option<PackErrorView> {
    match prior {
        None => None,
        Some(track) => if mode == ImportMode::Update && track.active.version == metadata.version {
            Some(
                coded(
                    "same_version"@,
                    metadata.id + " "@ + metadata.version + " is already active"@,
                    "use --replace-pack for a rebuilt pack with the same model version"@,
                ),
            )
        } else if mode == ImportMode::Replace && track.active.version != metadata.version {
            Some(
                coded(
                    "different_version"@,
                    "replacement version "@ + metadata.version + " does not match active version "@
                        + track.active.version,
                    "use --update-pack when moving to a different model version"@,
                ),
            )
        } else {
            None
        },
    }
}

/// The track that an import goes on from, or why the pack cannot be imported.
pub open spec fn accepted_import(
    packs: Seq<EntryView>,
    installed: Seq<InstalledView>,
    metadata: MetadataView,
    mode: ImportMode,
    build: BuildInfo,
) -> Result<Option<TrackView>, PackErrorView> {
    match prior_track_of(packs, installed, metadata.id, mode, build) {
        Err(error) => Err(error),
        Ok(prior) => match version_fault(metadata, prior, mode) {
            Some(fault) => Err(fault),
            None => Ok(prior),
        },
    }
}

/// The value of a track that may be missing.
pub open spec fn optional_track(track: Option<PackTrack>) -> Option<TrackView> {
    match track {
        Some(track) => Some(track@),
        None => None,
    }
}

fn count_healthy(installed: &Vec<InstalledPack>, id: &str) -> (found: (usize, usize))
    ensures
        found.0 == healthy_packs(installed_views(installed@), id@).len(),
        found.0 > 0 ==> found.1 < installed@.len() && installed@[found.1 as int]@ == healthy_packs(
            installed_views(installed@),
            id@,
        ).last(),
{
    let ghost views = installed_views(installed@);
    let mut count: usize = 0;
    let mut last: usize = 0;
    let mut position: usize = 0;
    assert(views.take(0) =~= Seq::<InstalledView>::empty());
    while position < installed.len()
        invariant
            views == installed_views(installed@),
            position <= installed@.len(),
            count <= position,
            count == healthy_packs(views.take(position as int), id@).len(),
            count > 0 ==> last < installed@.len() && installed@[last as int]@ == healthy_packs(
                views.take(position as int),
                id@,
            ).last(),
        decreases installed@.len() - position,
    {
        let pack = &installed[position];
        proof {
            let next = views.take(position + 1);
            assert(next.drop_last() =~= views.take(position as int));
            assert(next.last() == pack@);
        }
        if text::same(pack.id.as_str(), id) && pack.healthy {
            count = count + 1;
            last = position;
        }
        position = position + 1;
    }
    assert(views.take(position as int) =~= views);
    (count, last)
}

/// Finds the track that an import goes on from.
pub fn prior_track(
    state: &PackState,
    installed: &Vec<InstalledPack>,
    id: &str,
    mode: ImportMode,
    build: &BuildInfo,
) -> (prior: Result<Option<PackTrack>, PackError>)
    ensures
        match (
            prior,
            prior_track_of(state@.packs, installed_views(installed@), id@, mode, *build),
        ) {
            (Ok(prior), Ok(expected)) => optional_track(prior) == expected,
            (Err(error), Err(expected)) => error@ == expected,
            _ => false,
        },
{
    if let Some(track) = state.track(id) {
        return Ok(Some(track.copy()));
    }
    let (count, only) = count_healthy(installed, id);
    if count == 1 {
        let active = installed[only].reference(build);
        return Ok(Some(PackTrack { active, previous: None }));
    }
    if mode == ImportMode::Install {
        return Ok(None);
    }
    let named = text::join("model pack ", id);
    if count == 0 {
        Err(
            PackError::coded(
                "pack_not_installed",
                text::join(named.as_str(), " has no active installation").as_str(),
                "run --pack-status and use --install-pack to establish an explicit active version",
            ),
        )
    } else {
        Err(
            PackError::coded(
                "pack_state_ambiguous",
                text::join(named.as_str(), " has multiple untracked installations").as_str(),
                "run --pack-status and use --install-pack to establish an explicit active version",
            ),
        )
    }
}

/// Checks that a pack can be imported, and finds the track that the import goes on from.
pub fn check_import(
    state: &PackState,
    installed: &Vec<InstalledPack>,
    metadata: &PackMetadata,
    mode: ImportMode,
    build: &BuildInfo,
) -> (prior: Result<Option<PackTrack>, PackError>)
    ensures
        match (
            prior,
            accepted_import(
                state@.packs,
                installed_views(installed@),
                metadata@,
                mode,
                *build,
            ),
        ) {
            (Ok(prior), Ok(expected)) => optional_track(prior) == expected,
            (Err(error), Err(expected)) => error@ == expected,
            _ => false,
        },
{
    let prior = match prior_track(state, installed, metadata.id.as_str(), mode, build) {
        Ok(prior) => prior,
        Err(error) => return Err(error),
    };
    if let Some(track) = &prior {
        let same = text::same(track.active.version.as_str(), metadata.version.as_str());
        if mode == ImportMode::Update && same {
            let named = text::join(
                text::join(metadata.id.as_str(), " ").as_str(),
                metadata.version.as_str(),
            );
            return Err(
                PackError::coded(
                    "same_version",
                    text::join(named.as_str(), " is already active").as_str(),
                    "use --replace-pack for a rebuilt pack with the same model version",
                ),
            );
        }
        if mode == ImportMode::Replace && !same {
            let found = text::join(
                text::join("replacement version ", metadata.version.as_str()).as_str(),
                " does not match active version ",
            );
            return Err(
                PackError::coded(
                    "different_version",
                    text::join(found.as_str(), track.active.version.as_str()).as_str(),
                    "use --update-pack when moving to a different model version",
                ),
            );
        }
    }
    Ok(prior)
}

/// The track of a pack that has been imported: it is active, and what was active before is kept as
/// the previous one.
pub open spec fn imported_track(
    component: Seq<char>,
    metadata: MetadataView,
    runtime_version: Option<Seq<char>>,
    prior: Option<TrackView>,
    build: BuildInfo,
) -> TrackView {
    TrackView {
        active: installed_reference(component, metadata, runtime_version, build),
        previous: match prior {
            Some(track) => Some(track.active),
            None => None,
        },
    }
}

/// Enters an imported pack in the ledger as the active one, and returns its track.
pub fn activate(
    state: &mut PackState,
    component: String,
    metadata: &PackMetadata,
    runtime_version: Option<String>,
    prior: Option<PackTrack>,
    build: &BuildInfo,
) -> (track: PackTrack)
    ensures
        track@ == imported_track(
            component@,
            metadata@,
            text::optional(runtime_version),
            optional_track(prior),
            *build,
        ),
        final(state)@ == (StateView {
            packs: with_track(old(state)@.packs, metadata@.id, track@),
            ..old(state)@
        }),
        is_ordered(old(state)@.packs) ==> is_ordered(final(state)@.packs),
{
    let active = PackReference::from_metadata(component, metadata, runtime_version, build);
    let previous = match prior {
        Some(track) => Some(track.active),
        None => None,
    };
    let track = PackTrack { active, previous };
    state.insert(metadata.id.clone(), track.copy());
    track
}

/// The failure of an import whose files are in place and whose ledger could not be written.
pub fn publish_failure(destination: &str, error: &str) -> (failure: PackError)
    ensures
        failure@ == coded(
            "state_publish_failed"@,
            "pack files were retained inactive at "@ + destination@ + " but activation failed: "@
                + error@,
            "run --list-packs, then retry the operation or safely remove the inactive component"@,
        ),
{
    let retained = text::join(
        text::join("pack files were retained inactive at ", destination).as_str(),
        " but activation failed: ",
    );
    PackError::coded(
        "state_publish_failed",
        text::join(retained.as_str(), error).as_str(),
        "run --list-packs, then retry the operation or safely remove the inactive component",
    )
}

/// Whether a component is listed as healthy.
pub open spec fn is_healthy(installed: Seq<InstalledView>, component: Seq<char>) -> bool {
    exists|i: int|
        0 <= i < installed.len() && (#[trigger] installed[i]).component == component
            && installed[i].healthy
}

/// The failure of a component that is missing or invalid.
pub open spec fn unhealthy(component: Seq<char>) -> PackErrorView {
    coded(
        "pack_unhealthy"@,
        "pack component "@ + component + " is missing or invalid"@,
        "run doctor and install a verified replacement before changing active versions"@,
    )
}

/// Checks that a reference leads to a healthy component.
pub fn ensure_reference_healthy(installed: &Vec<InstalledPack>, reference: &PackReference) -> (result:
    Result<(), PackError>)
    ensures
        match result {
            Ok(_) => is_healthy(installed_views(installed@), reference@.component),
            Err(error) => !is_healthy(installed_views(installed@), reference@.component) && error@
                == unhealthy(reference@.component),
        },
{
    let ghost views = installed_views(installed@);
    let mut position: usize = 0;
    while position < installed.len()
        invariant
            views == installed_views(installed@),
            position <= installed@.len(),
            forall|i: int|
                0 <= i < position ==> !((#[trigger] views[i]).component == reference@.component
                    && views[i].healthy),
        decreases installed@.len() - position,
    {
        let pack = &installed[position];
        assert(views[position as int] == pack@);
        if text::same(pack.component.as_str(), reference.component.as_str()) && pack.healthy {
            return Ok(());
        }
        position = position + 1;
    }
    let named = text::join(
        text::join("pack component ", reference.component.as_str()).as_str(),
        " is missing or invalid",
    );
    Err(
        PackError::coded(
            "pack_unhealthy",
            named.as_str(),
            "run doctor and install a verified replacement before changing active versions",
        ),
    )
}

/// The failure of an id that has no active pack.
pub open spec fn not_installed(id: Seq<char>, hint: Seq<char>) -> PackErrorView {
    coded("pack_not_installed"@, "model pack "@ + id + " has no active installation"@, hint)
}

/// A track with its two packs exchanged, or why they cannot be.
pub open spec fn rolled_back(
    packs: Seq<EntryView>,
    installed: Seq<InstalledView>,
    id: Seq<char>,
) -> Result<TrackView, PackErrorView> {
    match track_of(packs, id) {
        None => Err(not_installed(id, "run --list-packs to see installed identities"@)),
        Some(track) => match track.previous {
            None => Err(
                coded(
                    "rollback_unavailable"@,
                    "model pack "@ + id + " has no retained previous version"@,
                    "install an update or replacement before requesting rollback"@,
                ),
            ),
            Some(previous) => if !is_healthy(installed, track.active.component) {
                Err(unhealthy(track.active.component))
            } else if !is_healthy(installed, previous.component) {
                Err(unhealthy(previous.component))
            } else {
                Ok(TrackView { active: previous, previous: Some(track.active) })
            },
        },
    }
}

/// Makes the previous pack of an id the active one, and the active one the previous.
pub fn rollback(state: &mut PackState, installed: &Vec<InstalledPack>, id: &str) -> (result: Result<
    PackTrack,
    PackError,
>)
    ensures
        match (result, rolled_back(old(state)@.packs, installed_views(installed@), id@)) {
            (Ok(track), Ok(expected)) => track@ == expected && final(state)@ == (StateView {
                packs: with_track(old(state)@.packs, id@, expected),
                ..old(state)@
            }),
            (Err(error), Err(expected)) => error@ == expected && final(state)@ == old(state)@,
            _ => false,
        },
        is_ordered(old(state)@.packs) ==> is_ordered(final(state)@.packs),
{
    let named = text::join("model pack ", id);
    let track = match state.track(id) {
        Some(track) => track.copy(),
        None => return Err(
            PackError::coded(
                "pack_not_installed",
                text::join(named.as_str(), " has no active installation").as_str(),
                "run --list-packs to see installed identities",
            ),
        ),
    };
    let previous = match track.previous {
        Some(previous) => previous,
        None => return Err(
            PackError::coded(
                "rollback_unavailable",
                text::join(named.as_str(), " has no retained previous version").as_str(),
                "install an update or replacement before requesting rollback",
            ),
        ),
    };
    if let Err(error) = ensure_reference_healthy(installed, &track.active) {
        return Err(error);
    }
    if let Err(error) = ensure_reference_healthy(installed, &previous) {
        return Err(error);
    }
    let exchanged = PackTrack { active: previous, previous: Some(track.active) };
    state.insert(id.to_owned(), exchanged.copy());
    Ok(exchanged)
}

/// Whether an installed pack is one that a removal may mean.
pub open spec fn is_meant(
    pack: InstalledView,
    id: Seq<char>,
    version: Option<Seq<char>>,
    component: Option<Seq<char>>,
) -> bool {
    &&& pack.id == id
    &&& version matches Some(version) ==> pack.version == version
    &&& component matches Some(component) ==> pack.component == component
}

/// The installed packs that a removal may mean.
pub open spec fn meant_packs(
    installed: Seq<InstalledView>,
    id: Seq<char>,
    version: Option<Seq<char>>,
    component: Option<Seq<char>>,
) -> Seq<InstalledView>
    decreases installed.len(),
{
    if installed.len() == 0 {
        Seq::empty()
    } else {
        let earlier = meant_packs(installed.drop_last(), id, version, component);
        if is_meant(installed.last(), id, version, component) {
            earlier.push(installed.last())
        } else {
            earlier
        }
    }
}

/// The pack that a removal takes away, or why it takes none.
pub open spec fn removal_target(
    installed: Seq<InstalledView>,
    id: Seq<char>,
    version: Option<Seq<char>>,
    component: Option<Seq<char>>,
    allow_active: bool,
) -> Result<InstalledView, PackErrorView> {
    let meant = meant_packs(installed, id, version, component);
    if meant.len() == 0 {
        Err(
            coded(
                "pack_not_found"@,
                "no installed component matches model pack "@ + id,
                "run --pack-status to copy an installed version or component exactly"@,
            ),
        )
    } else if meant.len() != 1 {
        Err(
            coded(
                "ambiguous_remove"@,
                "multiple components match model pack "@ + id,
                "retry with --pack-component using the exact inactive component from status"@,
            ),
        )
    } else if meant[0].role == PackRole::Active && !allow_active {
        Err(
            coded(
                "active_pack"@,
                "refusing to remove active component "@ + meant[0].component,
                "rollback or install an update first, then remove the inactive component"@,
            ),
        )
    } else {
        Ok(meant[0])
    }
}

/// The ledger after a pack of an id has been removed, and whether that changed it.
pub open spec fn ledger_after_removal(
    packs: Seq<EntryView>,
    id: Seq<char>,
    target: InstalledView,
) -> (Seq<EntryView>, bool) {
    if target.role == PackRole::Active {
        let left = without_track(packs, id);
        match retired_previous(left, id, target.component) {
            Some(track) => (with_track(left, id, track), true),
            None => (left, true),
        }
    } else {
        match retired_previous(packs, id, target.component) {
            Some(track) => (with_track(packs, id, track), true),
            None => (packs, false),
        }
    }
}

/// The track of an id without its previous pack, where that is the given component.
pub open spec fn retired_previous(
    packs: Seq<EntryView>,
    id: Seq<char>,
    component: Seq<char>,
) -> Option<TrackView> {
    match track_of(packs, id) {
        None => None,
        Some(track) => match track.previous {
            None => None,
            Some(previous) => if previous.component == component {
                Some(TrackView { active: track.active, previous: None })
            } else {
                None
            },
        },
    }
}

fn meets(wanted: Option<&str>, found: &str) -> (met: bool)
    ensures
        met == match wanted {
            Some(wanted) => found@ == wanted@,
            None => true,
        },
{
    match wanted {
        Some(wanted) => text::same(found, wanted),
        None => true,
    }
}

/// The value of a borrowed text that may be missing.
pub open spec fn borrowed(text: Option<&str>) -> Option<Seq<char>> {
    match text {
        Some(text) => Some(text@),
        None => None,
    }
}

/// Finds the pack that a removal takes away; returns its position.
pub fn select_removal(
    installed: &Vec<InstalledPack>,
    id: &str,
    version: Option<&str>,
    component: Option<&str>,
    allow_active: bool,
) -> (target: Result<usize, PackError>)
    ensures
        match (
            target,
            removal_target(
                installed_views(installed@),
                id@,
                borrowed(version),
                borrowed(component),
                allow_active,
            ),
        ) {
            (Ok(position), Ok(expected)) => position < installed@.len()
                && installed@[position as int]@ == expected,
            (Err(error), Err(expected)) => error@ == expected,
            _ => false,
        },
{
    let ghost views = installed_views(installed@);
    let ghost wanted_version = borrowed(version);
    let ghost wanted_component = borrowed(component);
    let mut count: usize = 0;
    let mut last: usize = 0;
    let mut position: usize = 0;
    assert(views.take(0) =~= Seq::<InstalledView>::empty());
    while position < installed.len()
        invariant
            views == installed_views(installed@),
            wanted_version == borrowed(version),
            wanted_component == borrowed(component),
            position <= installed@.len(),
            count <= position,
            count == meant_packs(
                views.take(position as int),
                id@,
                wanted_version,
                wanted_component,
            ).len(),
            count > 0 ==> last < installed@.len() && installed@[last as int]@ == meant_packs(
                views.take(position as int),
                id@,
                wanted_version,
                wanted_component,
            ).last(),
        decreases installed@.len() - position,
    {
        let pack = &installed[position];
        proof {
            let next = views.take(position + 1);
            assert(next.drop_last() =~= views.take(position as int));
            assert(next.last() == pack@);
        }
        if text::same(pack.id.as_str(), id) && meets(version, pack.version.as_str()) && meets(
            component,
            pack.component.as_str(),
        ) {
            count = count + 1;
            last = position;
        }
        position = position + 1;
    }
    assert(views.take(position as int) =~= views);
    if count == 0 {
        return Err(
            PackError::coded(
                "pack_not_found",
                text::join("no installed component matches model pack ", id).as_str(),
                "run --pack-status to copy an installed version or component exactly",
            ),
        );
    }
    if count != 1 {
        return Err(
            PackError::coded(
                "ambiguous_remove",
                text::join("multiple components match model pack ", id).as_str(),
                "retry with --pack-component using the exact inactive component from status",
            ),
        );
    }
    let target = &installed[last];
    if target.role == PackRole::Active && !allow_active {
        let message = text::join(
            "refusing to remove active component ",
            target.component.as_str(),
        );
        return Err(
            PackError::coded(
                "active_pack",
                message.as_str(),
                "rollback or install an update first, then remove the inactive component",
            ),
        );
    }
    Ok(last)
}

/// Takes a removed pack out of the ledger; tells whether that changed it.
pub fn retire(state: &mut PackState, id: &str, target: &InstalledPack) -> (changed: bool)
    ensures
        final(state)@ == (StateView {
            packs: ledger_after_removal(old(state)@.packs, id@, target@).0,
            ..old(state)@
        }),
        changed == ledger_after_removal(old(state)@.packs, id@, target@).1,
        is_ordered(old(state)@.packs) ==> is_ordered(final(state)@.packs),
{
    let mut changed = false;
    if target.role == PackRole::Active {
        state.remove(id);
        changed = true;
    }
    let kept = match state.track(id) {
        Some(track) => match &track.previous {
            Some(previous) => if text::same(
                previous.component.as_str(),
                target.component.as_str(),
            ) {
                Some(PackTrack { active: track.active.copy(), previous: None })
            } else {
                None
            },
            None => None,
        },
        None => None,
    };
    if let Some(track) = kept {
        state.insert(id.to_owned(), track);
        changed = true;
    }
    changed
}

/// After an import the pack is the active one of its id, the one that was active before is kept as
/// the previous one, and the tracks of all other ids are as they were.
pub proof fn law_import_keeps_the_prior_active(
    packs: Seq<EntryView>,
    component: Seq<char>,
    metadata: MetadataView,
    runtime_version: Option<Seq<char>>,
    build: BuildInfo,
    other: Seq<char>,
)
    requires
        is_ordered(packs),
    ensures
        ({
            let prior = track_of(packs, metadata.id);
            let track = imported_track(component, metadata, runtime_version, prior, build);
            let after = with_track(packs, metadata.id, track);
            &&& is_ordered(after)
            &&& track_of(after, metadata.id) matches Some(found) && {
                &&& found.active.component == component
                &&& found.active.version == metadata.version
                &&& found.previous == match prior {
                    Some(prior) => Some(prior.active),
                    None => None,
                }
            }
            &&& other != metadata.id ==> track_of(after, other) == track_of(packs, other)
        }),
{
    law_with_track(
        packs,
        metadata.id,
        imported_track(
            component,
            metadata,
            runtime_version,
            track_of(packs, metadata.id),
            build,
        ),
        other,
    );
}

/// Rolling back twice, with the same components in place, leaves the ledger as it was.
pub proof fn law_rollback_undoes_itself(
    packs: Seq<EntryView>,
    installed: Seq<InstalledView>,
    id: Seq<char>,
)
    requires
        is_ordered(packs),
        rolled_back(packs, installed, id) is Ok,
    ensures
        ({
            let once = with_track(packs, id, rolled_back(packs, installed, id)->Ok_0);
            &&& rolled_back(once, installed, id) is Ok
            &&& with_track(once, id, rolled_back(once, installed, id)->Ok_0) == packs
        }),
{
    let track = track_of(packs, id)->Some_0;
    let exchanged = rolled_back(packs, installed, id)->Ok_0;
    let once = with_track(packs, id, exchanged);
    law_with_track(packs, id, exchanged, id);
    lemma_replace_twice(packs, id, exchanged, track);
    lemma_replace_same(packs, id, track);
}

proof fn lemma_replace_twice(
    packs: Seq<EntryView>,
    id: Seq<char>,
    first: TrackView,
    second: TrackView,
)
    ensures
        with_track(with_track(packs, id, first), id, second) == with_track(packs, id, second),
    decreases packs.len(),
{
    text::law_order_irreflexive(id);
    let once = with_track(packs, id, first);
    if packs.len() == 0 || text::precedes(id, packs[0].id) {
        assert(once.drop_first() =~= packs);
    } else if packs[0].id == id {
        assert(once.drop_first() =~= packs.drop_first());
    } else {
        assert(once.drop_first() =~= with_track(packs.drop_first(), id, first));
        lemma_replace_twice(packs.drop_first(), id, first, second);
    }
}

proof fn lemma_replace_same(packs: Seq<EntryView>, id: Seq<char>, track: TrackView)
    requires
        is_ordered(packs),
        track_of(packs, id) == Some(track),
    ensures
        with_track(packs, id, track) == packs,
    decreases packs.len(),
{
    if packs.len() > 0 {
        let rest = packs.drop_first();
        assert(seq![packs[0]] + rest =~= packs);
        if packs[0].id == id {
            text::law_order_irreflexive(id);
            assert(packs[0] == EntryView { id, track });
        } else {
            crate::pack::state::lemma_drop_first_ordered(packs);
            if text::precedes(id, packs[0].id) {
                crate::pack::state::lemma_absent_before(packs, id);
            }
            lemma_replace_same(rest, id, track);
        }
    }
}

/// A removal touches the track of its own id alone: it is gone where the active pack was removed,
/// and it loses at most its previous pack otherwise.
pub proof fn law_removal_is_confined(
    packs: Seq<EntryView>,
    id: Seq<char>,
    target: InstalledView,
    other: Seq<char>,
)
    requires
        is_ordered(packs),
    ensures
        ({
            let (after, changed) = ledger_after_removal(packs, id, target);
            &&& is_ordered(after)
            &&& other != id ==> track_of(after, other) == track_of(packs, other)
            &&& target.role == PackRole::Active ==> changed && track_of(after, id) is None
            &&& !changed ==> after == packs
            &&& target.role != PackRole::Active ==> match (track_of(packs, id), track_of(after, id)) {
                (Some(before), Some(now)) => now.active == before.active && (now.previous
                    == before.previous || now.previous is None),
                (None, None) => true,
                _ => false,
            }
            &&& target.role != PackRole::Active ==> (track_of(after, id) matches Some(now) ==> (
            now.previous matches Some(previous) ==> previous.component != target.component))
        }),
{
    law_without_track(packs, id, other);
    law_without_track(packs, id, id);
    if let Some(track) = retired_previous(packs, id, target.component) {
        law_with_track(packs, id, track, other);
    }
}

} // verus!
