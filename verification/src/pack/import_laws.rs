//! What importing a pack and rolling one back come to.

use vstd::prelude::*;
use vstd::string::*;

use crate::pack::activation::{
    check_import, healthy_packs, imported_track, is_healthy, optional_track, rolled_back,
};
use crate::pack::command::ImportMode;
use crate::pack::error::{PackError, PackErrorView};
use crate::pack::records::{BuildInfo, MetadataView, PackMetadata, PackTrack, TrackView};
use crate::pack::scan::{installed_views, InstalledPack, InstalledView};
use crate::pack::state::{track_of, EntryView, PackState};
use crate::selection::lemma_only;

verus! {

/// The code of a failure; one without a code has none.
pub open spec fn failure_code(error: PackError) -> Option<Seq<char>> {
    match error@ {
        PackErrorView::Lifecycle(error) => Some(error.code),
        PackErrorView::Failed(_) => None,
    }
}

/// Whether an installed pack is a healthy one of an id.
pub open spec fn is_adoptable(pack: InstalledPack, id: Seq<char>) -> bool {
    pack.id@ == id && pack.healthy
}

/// Whether one installed pack is healthy and of an id, and no other.
pub open spec fn is_only_adoptable(installed: Seq<InstalledPack>, id: Seq<char>, at: int) -> bool {
    &&& 0 <= at < installed.len()
    &&& is_adoptable(installed[at], id)
    &&& forall|i: int|
        0 <= i < installed.len() && i != at ==> !is_adoptable(#[trigger] installed[i], id)
}

/// The healthy packs of an id are those that are healthy and have the id.
pub proof fn lemma_healthy(installed: Seq<InstalledView>, id: Seq<char>)
    ensures
        healthy_packs(installed, id) == installed.filter(
            |pack: InstalledView| pack.id == id && pack.healthy,
        ),
    decreases installed.len(),
{
    reveal(Seq::filter);
    if installed.len() > 0 {
        lemma_healthy(installed.drop_last(), id);
    } else {
        assert(healthy_packs(installed, id) =~= installed.filter(
            |pack: InstalledView| pack.id == id && pack.healthy,
        ));
    }
}

/// What the healthy packs of an id are: none, the only one, or several.
pub proof fn lemma_adoptable(installed: Seq<InstalledPack>, id: Seq<char>) -> (at: int)
    ensures
        ({
            let group = healthy_packs(installed_views(installed), id);
            &&& group.len() == 1 ==> is_only_adoptable(installed, id, at) && group[0]
                == installed[at]@
            &&& group.len() == 0 ==> forall|i: int|
                0 <= i < installed.len() ==> !is_adoptable(#[trigger] installed[i], id)
            &&& group.len() > 1 ==> exists|i: int, j: int|
                0 <= i < installed.len() && 0 <= j < installed.len() && i != j && is_adoptable(
                    #[trigger] installed[i],
                    id,
                ) && is_adoptable(#[trigger] installed[j], id)
        }),
{
    let views = installed_views(installed);
    let wanted = |pack: InstalledView| pack.id == id && pack.healthy;
    lemma_healthy(views, id);
    assert(healthy_packs(views, id) == views.filter(wanted));
    let at = lemma_only(views, wanted);
    assert forall|i: int| 0 <= i < installed.len() implies views[i] == (#[trigger] installed[i])@ by {
    }
    assert forall|i: int| 0 <= i < installed.len() && is_adoptable(
        #[trigger] installed[i],
        id,
    ) implies wanted(views[i]) by {
    }
    if views.filter(wanted).len() > 1 {
        let other = choose|i: int| 0 <= i < views.len() && wanted(#[trigger] views[i]) && i != at;
        assert(is_adoptable(installed[at], id) && is_adoptable(installed[other], id));
    }
    at
}

/// An import goes on from the track that the ledger has for the id, or else from the only healthy
/// pack of the id, if there is exactly one. An install needs neither; an update needs one with another
/// version, and a replacement one with the same version. Nothing else keeps an import from being made.
pub proof fn law_imports_go_on_from_the_active(
    state: &PackState,
    installed: &Vec<InstalledPack>,
    metadata: &PackMetadata,
    mode: ImportMode,
    build: &BuildInfo,
    prior: Result<Option<PackTrack>, PackError>,
)
    requires
        call_ensures(check_import, (state, installed, metadata, mode, build), prior),
    ensures
        ({
            let recorded = track_of(state@.packs, metadata.id@);
            let only = exists|at: int| is_only_adoptable(installed@, metadata.id@, at);
            &&& prior matches Ok(Some(track)) ==> {
                &&& recorded matches Some(recorded) ==> track@ == recorded
                &&& recorded is None ==> track.previous is None && exists|at: int|
                    #[trigger] is_only_adoptable(installed@, metadata.id@, at)
                        && track.active.component@ == installed@[at].component@
                        && track.active.version@ == installed@[at].version@ && track.active.id@
                        == installed@[at].id@ && track.active@.files == installed@[at]@.files
                &&& mode == ImportMode::Update ==> track.active.version@ != metadata.version@
                &&& mode == ImportMode::Replace ==> track.active.version@ == metadata.version@
            }
            &&& prior matches Ok(None) ==> mode == ImportMode::Install && recorded is None && !only
            &&& mode == ImportMode::Install ==> prior is Ok
            &&& prior matches Err(error) ==> {
                ||| recorded is None && !only && (failure_code(error) == Some(
                    "pack_not_installed"@,
                ) || failure_code(error) == Some("pack_state_ambiguous"@))
                ||| (recorded is Some || only) && mode == ImportMode::Update && failure_code(error)
                    == Some("same_version"@)
                ||| (recorded is Some || only) && mode == ImportMode::Replace && failure_code(error)
                    == Some("different_version"@)
            }
            &&& recorded matches Some(recorded) ==> (prior is Ok <==> {
                ||| mode == ImportMode::Install
                ||| mode == ImportMode::Update && recorded.active.version != metadata.version@
                ||| mode == ImportMode::Replace && recorded.active.version == metadata.version@
            })
        }),
{
    let at = lemma_adoptable(installed@, metadata.id@);
    let group = healthy_packs(installed_views(installed@), metadata.id@);
    assert(metadata@.id == metadata.id@ && metadata@.version == metadata.version@);
    if group.len() == 1 {
        assert(is_only_adoptable(installed@, metadata.id@, at));
    } else if exists|other: int| is_only_adoptable(installed@, metadata.id@, other) {
        let other = choose|other: int| is_only_adoptable(installed@, metadata.id@, other);
        assert(is_adoptable(installed@[other], metadata.id@));
        assert(group.len() > 1);
        assert(false);
    }
    if let Ok(Some(track)) = prior {
        assert(optional_track(Some(track)) == Some(track@));
        assert(track@.active == track.active@);
        assert(track.active@.version == track.active.version@);
    }
}

/// An imported pack is recorded with its component and with everything that was found in it; what was
/// active before becomes the previous pack, and nothing else is kept.
pub proof fn law_imports_record_what_was_found(
    component: Seq<char>,
    metadata: MetadataView,
    runtime_version: Option<Seq<char>>,
    prior: Option<TrackView>,
    build: BuildInfo,
)
    ensures
        ({
            let track = imported_track(component, metadata, runtime_version, prior, build);
            &&& track.active.component == component
            &&& track.active.id == metadata.id
            &&& track.active.version == metadata.version
            &&& track.active.format == metadata.format
            &&& track.active.dimensions == metadata.dimensions
            &&& track.active.bytes == metadata.bytes
            &&& track.active.files == metadata.files
            &&& track.active.installed_by == build.version@
            &&& track.active.runtime_api_minor == build.runtime_api_minor
            &&& track.active.runtime_version == runtime_version
            &&& track.previous is Some <==> prior is Some
            &&& prior matches Some(prior) ==> track.previous == Some(prior.active)
        }),
{
}

/// A track is rolled back if and only if the ledger has one for the id with a previous pack, and both
/// of its packs are listed as healthy. Then the two have changed places.
pub proof fn law_rollback_exchanges_healthy_packs(
    packs: Seq<EntryView>,
    installed: Seq<InstalledPack>,
    id: Seq<char>,
)
    ensures
        ({
            let result = rolled_back(packs, installed_views(installed), id);
            let lists = |component: Seq<char>|
                exists|i: int|
                    0 <= i < installed.len() && (#[trigger] installed[i]).component@ == component
                        && installed[i].healthy;
            &&& result is Ok <==> (track_of(packs, id) matches Some(track) && (
            track.previous matches Some(previous) && lists(track.active.component) && lists(
                previous.component,
            )))
            &&& result matches Ok(after) ==> (track_of(packs, id) matches Some(before) && Some(
                after.active,
            ) == before.previous && after.previous == Some(before.active))
        }),
{
    let views = installed_views(installed);
    assert forall|component: Seq<char>|
        is_healthy(views, component) == (exists|i: int|
            0 <= i < installed.len() && (#[trigger] installed[i]).component@ == component
                && installed[i].healthy) by {
        if is_healthy(views, component) {
            let i = choose|i: int|
                0 <= i < views.len() && (#[trigger] views[i]).component == component
                    && views[i].healthy;
            assert(installed[i].component@ == component && installed[i].healthy);
        }
        if exists|i: int|
            0 <= i < installed.len() && (#[trigger] installed[i]).component@ == component
                && installed[i].healthy {
            let i = choose|i: int|
                0 <= i < installed.len() && (#[trigger] installed[i]).component@ == component
                    && installed[i].healthy;
            assert(views[i].component == component);
        }
    }
}

} // verus!
