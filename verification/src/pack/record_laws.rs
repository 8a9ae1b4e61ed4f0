//! What references and ledgers hold, and when they are the same.

use vstd::prelude::*;
use vstd::string::*;

use crate::pack::activation::{ensure_reference_healthy, prior_track};
use crate::pack::command::ImportMode;
use crate::pack::doctor_laws::{is_usable, lemma_pack_with};
use crate::pack::error::PackError;
use crate::pack::health_laws::{are_same_files, lemma_same_files};
use crate::pack::import_laws::{is_only_adoptable, lemma_adoptable};
use crate::pack::ledger_laws::{law_last_entries_count, law_tracks_are_found};
use crate::pack::mutation_laws::{is_listed_healthy, records};
use crate::pack::records::{
    same_files, same_metadata, BuildInfo, PackFileDigest, PackMetadata, PackReference, PackTrack,
};
use crate::pack::repair::{find_pack, rehash_reference, state_needs_digest_migration};
use crate::pack::scan::{installed_views, InstalledPack};
use crate::pack::state::{entry_views, track_of, PackState, TrackEntry};
use crate::text;

verus! {

/// A reference to an imported pack records its component and everything that was found in it.
pub proof fn law_references_record_what_was_found(
    component: String,
    metadata: &PackMetadata,
    runtime_version: Option<String>,
    build: &BuildInfo,
    reference: PackReference,
)
    requires
        call_ensures(
            PackReference::from_metadata,
            (component, metadata, runtime_version, build),
            reference,
        ),
    ensures
        records(reference@, component@, *metadata, text::optional(runtime_version), *build),
{
}

/// An installed pack that the ledger did not record is referred to as it is, and as one that was there
/// before the ledger.
pub proof fn law_adopted_packs_are_referred_to_as_they_are(
    pack: &InstalledPack,
    build: &BuildInfo,
    reference: PackReference,
)
    requires
        call_ensures(InstalledPack::reference, (pack, build), reference),
    ensures
        reference.component@ == pack.component@,
        reference.id@ == pack.id@ && reference.version@ == pack.version@,
        reference.format == pack.format && reference.dimensions == pack.dimensions,
        reference.bytes == pack.bytes && are_same_files(reference.files@, pack.files@),
        reference.installed_by@ == "pre-ledger"@,
        reference.runtime_api_minor == build.runtime_api_minor,
        reference.runtime_version is None,
{
    lemma_same_files(reference.files@, pack.files@);
}

/// Whether two references say the same.
pub open spec fn are_same_references(left: PackReference, right: PackReference) -> bool {
    &&& left.component@ == right.component@
    &&& left.id@ == right.id@
    &&& left.version@ == right.version@
    &&& left.format == right.format
    &&& left.dimensions == right.dimensions
    &&& left.bytes == right.bytes
    &&& are_same_files(left.files@, right.files@)
    &&& left.installed_by@ == right.installed_by@
    &&& left.runtime_api_minor == right.runtime_api_minor
    &&& text::optional(left.runtime_version) == text::optional(right.runtime_version)
}

/// Two references are the same if and only if they say the same, and two tracks if and only if both of
/// their references are. A copy of either says the same.
pub proof fn law_references_are_compared(
    left: &PackReference,
    right: &PackReference,
    same: bool,
    copy: PackReference,
    first: &PackTrack,
    second: &PackTrack,
    same_track: bool,
    copied_track: PackTrack,
)
    requires
        call_ensures(PackReference::same, (left, right), same),
        call_ensures(PackReference::copy, (left,), copy),
        call_ensures(PackTrack::same, (first, second), same_track),
        call_ensures(PackTrack::copy, (first,), copied_track),
    ensures
        same <==> are_same_references(*left, *right),
        are_same_references(*left, copy),
        same_track <==> are_same_references(first.active, second.active) && match (
            first.previous,
            second.previous,
        ) {
            (Some(left), Some(right)) => are_same_references(left, right),
            (None, None) => true,
            _ => false,
        },
        are_same_references(first.active, copied_track.active),
        first.previous is Some <==> copied_track.previous is Some,
{
    lemma_same_files(left.files@, right.files@);
    lemma_same_files(left.files@, copy.files@);
    lemma_same_files(first.active.files@, second.active.files@);
    lemma_same_files(first.active.files@, copied_track.active.files@);
    match (first.previous, second.previous) {
        (Some(left), Some(right)) => {
            lemma_same_files(left.files@, right.files@);
        },
        _ => {},
    }
}

/// Files are the same if and only if they have the same paths, sizes and digests in the same order, and
/// packs if and only if they say the same of themselves and have the same files.
pub proof fn law_contents_are_compared(
    left: &Vec<PackFileDigest>,
    right: &Vec<PackFileDigest>,
    same: bool,
    first: &PackMetadata,
    second: &PackMetadata,
    same_pack: bool,
)
    requires
        call_ensures(same_files, (left, right), same),
        call_ensures(same_metadata, (first, second), same_pack),
    ensures
        same <==> are_same_files(left@, right@),
        same_pack <==> first.format == second.format && first.id@ == second.id@ && first.version@
            == second.version@ && first.dimensions == second.dimensions && first.bytes
            == second.bytes && are_same_files(first.files@, second.files@),
{
    lemma_same_files(left@, right@);
    lemma_same_files(first.files@, second.files@);
}

/// A ledger begins empty, of the known format.
pub proof fn law_ledgers_begin_empty(build: &BuildInfo, state: PackState)
    requires
        call_ensures(PackState::empty, (build,), state),
    ensures
        state.packs@.len() == 0 && state.format == 1 && state.written_by@ == build.version@,
{
    assert(entry_views(state.packs@).len() == state.packs@.len());
}

/// The track that a ledger gives for an id is that of its first entry with the id.
pub proof fn law_ledgers_give_the_track_of_an_id(
    state: &PackState,
    id: &str,
    track: Option<&PackTrack>,
)
    requires
        call_ensures(PackState::track, (state, id), track),
    ensures
        track is None <==> forall|i: int|
            0 <= i < state.packs@.len() ==> (#[trigger] state.packs@[i]).id@ != id@,
        track matches Some(track) ==> exists|i: int|
            {
                &&& 0 <= i < state.packs@.len()
                &&& (#[trigger] state.packs@[i]).id@ == id@
                &&& state.packs@[i].track@ == track@
                &&& forall|j: int| 0 <= j < i ==> (#[trigger] state.packs@[j]).id@ != id@
            },
{
    let views = entry_views(state.packs@);
    law_tracks_are_found(views, id@);
    assert(views.len() == state.packs@.len());
    assert forall|i: int| 0 <= i < views.len() implies views[i] == (#[trigger] state.packs@[i])@ by {
    }
    if let Some(found) = track {
        let i = choose|i: int|
            {
                &&& 0 <= i < views.len()
                &&& (#[trigger] views[i]).id == id@
                &&& views[i].track == found@
                &&& forall|j: int| 0 <= j < i ==> (#[trigger] views[j]).id != id@
            };
        assert(state.packs@[i].id@ == id@);
        assert forall|j: int| 0 <= j < i implies (#[trigger] state.packs@[j]).id@ != id@ by {
            assert(views[j].id != id@);
        }
    } else {
        assert forall|i: int| 0 <= i < state.packs@.len() implies (#[trigger] state.packs@[i]).id@
            != id@ by {
            assert(views[i].id != id@);
        }
    }
}

/// A ledger that is made from entries gives each id the track of its last entry, and no other id one.
pub proof fn law_ledgers_are_made_from_entries(
    format: u32,
    written_by: String,
    entries: Vec<TrackEntry>,
    state: PackState,
    id: Seq<char>,
)
    requires
        call_ensures(PackState::from_entries, (format, written_by, entries), state),
    ensures
        state.format == format && state.written_by@ == written_by@,
        track_of(state@.packs, id) is None ==> forall|i: int|
            0 <= i < entries@.len() ==> (#[trigger] entries@[i]).id@ != id,
        track_of(state@.packs, id) matches Some(track) ==> exists|i: int|
            {
                &&& 0 <= i < entries@.len()
                &&& (#[trigger] entries@[i]).id@ == id
                &&& entries@[i].track@ == track
                &&& forall|j: int| i < j < entries@.len() ==> (#[trigger] entries@[j]).id@ != id
            },
{
    let views = entry_views(entries@);
    law_last_entries_count(views, id);
    assert forall|i: int| 0 <= i < views.len() implies views[i] == (#[trigger] entries@[i])@ by {
    }
    if let Some(track) = track_of(state@.packs, id) {
        let i = choose|i: int|
            {
                &&& 0 <= i < views.len()
                &&& (#[trigger] views[i]).id == id
                &&& views[i].track == track
                &&& forall|j: int| i < j < views.len() ==> (#[trigger] views[j]).id != id
            };
        assert(entries@[i].id@ == id);
        assert forall|j: int| i < j < entries@.len() implies (#[trigger] entries@[j]).id@
            != id by {
            assert(views[j].id != id);
        }
    } else {
        assert forall|i: int| 0 <= i < entries@.len() implies (#[trigger] entries@[i]).id@
            != id by {
            assert(views[i].id != id);
        }
    }
}

/// Two ledgers are the same if and only if they have the same format and the same tracks for the same ids;
/// who wrote them does not matter.
pub proof fn law_ledgers_are_compared(left: &PackState, right: &PackState, same: bool)
    requires
        call_ensures(PackState::same_ledger, (left, right), same),
    ensures
        same ==> left.format == right.format && left.packs@.len() == right.packs@.len() && forall|
            i: int,
        |
            0 <= i < left.packs@.len() ==> (#[trigger] left.packs@[i]).id@ == right.packs@[i].id@
                && left.packs@[i].track@ == right.packs@[i].track@,
        left.format == right.format && left.packs@.len() == right.packs@.len() && (forall|i: int|
            0 <= i < left.packs@.len() ==> (#[trigger] left.packs@[i]).id@ == right.packs@[i].id@
                && left.packs@[i].track@ == right.packs@[i].track@) ==> same,
{
    let first = entry_views(left.packs@);
    let second = entry_views(right.packs@);
    assert(first.len() == left.packs@.len() && second.len() == right.packs@.len());
    if same {
        assert forall|i: int| 0 <= i < left.packs@.len() implies (#[trigger] left.packs@[i]).id@
            == right.packs@[i].id@ && left.packs@[i].track@ == right.packs@[i].track@ by {
            assert(first[i] == left.packs@[i]@);
            assert(second[i] == right.packs@[i]@);
        }
    }
    if left.format == right.format && left.packs@.len() == right.packs@.len() && (forall|i: int|
        0 <= i < left.packs@.len() ==> (#[trigger] left.packs@[i]).id@ == right.packs@[i].id@
            && left.packs@[i].track@ == right.packs@[i].track@) {
        assert forall|i: int| 0 <= i < first.len() implies first[i] == second[i] by {
            assert(first[i] == left.packs@[i]@);
            assert(second[i] == right.packs@[i]@);
        }
        assert(first =~= second);
    }
}

/// An import goes on from the track of the ledger, or else from the only healthy pack of the id. An update
/// or a replacement that has neither is refused.
pub proof fn law_imports_find_what_came_before(
    state: &PackState,
    installed: &Vec<InstalledPack>,
    id: &str,
    mode: ImportMode,
    build: &BuildInfo,
    prior: Result<Option<PackTrack>, PackError>,
    at: int,
)
    requires
        call_ensures(prior_track, (state, installed, id, mode, build), prior),
    ensures
        track_of(state@.packs, id@) matches Some(track) ==> (prior matches Ok(Some(prior))
            && prior@ == track),
        track_of(state@.packs, id@) is None && is_only_adoptable(installed@, id@, at) ==> (
        prior matches Ok(Some(prior)) && prior.active.component@ == installed@[at].component@
            && prior.previous is None),
        track_of(state@.packs, id@) is None && (forall|i: int| !is_only_adoptable(
            installed@,
            id@,
            i,
        )) ==> (prior is Err <==> !(mode is Install)) && (mode is Install ==> (
        prior matches Ok(found) && found is None)),
{
    let found = lemma_adoptable(installed@, id@);
}

/// A reference is healthy if and only if its component is listed as healthy.
pub proof fn law_healthy_references(
    installed: &Vec<InstalledPack>,
    reference: &PackReference,
    result: Result<(), PackError>,
)
    requires
        call_ensures(ensure_reference_healthy, (installed, reference), result),
    ensures
        result is Ok <==> is_listed_healthy(installed@, reference.component@),
{
    let views = installed_views(installed@);
    if result is Ok {
        let i = choose|i: int|
            0 <= i < views.len() && (#[trigger] views[i]).component == reference.component@
                && views[i].healthy;
        assert(installed@[i]@ == views[i]);
    }
    if is_listed_healthy(installed@, reference.component@) {
        let i = choose|i: int|
            0 <= i < installed@.len() && (#[trigger] installed@[i]).component@
                == reference.component@ && installed@[i].healthy;
        assert(views[i] == installed@[i]@);
    }
}

/// An installed pack is found by its component, if it is there.
pub proof fn law_packs_are_found_by_their_component(
    installed: &Vec<InstalledPack>,
    component: &str,
    pack: Option<&InstalledPack>,
)
    requires
        call_ensures(find_pack, (installed, component), pack),
    ensures
        pack is Some <==> exists|i: int|
            0 <= i < installed@.len() && (#[trigger] installed@[i]).component@ == component@,
        pack is Some && pack->Some_0.healthy <==> is_usable(installed@, component@),
{
    lemma_pack_with(installed@, component@);
}

/// A ledger needs the digests of its packs if and only if a pack of it has no files recorded.
pub proof fn law_digests_are_needed(state: &PackState, needed: bool)
    requires
        call_ensures(state_needs_digest_migration, (state,), needed),
    ensures
        needed <==> exists|i: int|
            0 <= i < state.packs@.len() && ((#[trigger] state.packs@[i]).track.active.files@.len()
                == 0 || (state.packs@[i].track.previous matches Some(previous)
                && previous.files@.len() == 0)),
{
    let views = entry_views(state.packs@);
    assert(views.len() == state.packs@.len());
    assert forall|i: int| 0 <= i < views.len() implies views[i] == (#[trigger] state.packs@[i])@
        && views[i].track.active.files.len() == state.packs@[i].track.active.files@.len() by {
    }
    if needed {
        let i = choose|i: int|
            0 <= i < views.len() && crate::pack::repair::lacks_digests(
                (#[trigger] views[i]).track,
            );
        assert(views[i] == state.packs@[i]@);
    }
    if exists|i: int|
        0 <= i < state.packs@.len() && ((#[trigger] state.packs@[i]).track.active.files@.len()
            == 0 || (state.packs@[i].track.previous matches Some(previous)
            && previous.files@.len() == 0)) {
        let i = choose|i: int|
            0 <= i < state.packs@.len() && ((#[trigger] state.packs@[i]).track.active.files@.len()
                == 0 || (state.packs@[i].track.previous matches Some(previous)
                && previous.files@.len() == 0));
        assert(views[i] == state.packs@[i]@);
        assert(crate::pack::repair::lacks_digests(views[i].track));
    }
}

/// A reference gets the digests of its component if and only if that is installed, healthy and the pack
/// that the reference is about; nothing else of it changes.
pub proof fn law_digests_come_from_the_same_pack(
    reference: &PackReference,
    installed: &Vec<InstalledPack>,
    migrated: Result<PackReference, PackError>,
    component: &str,
    pack: Option<&InstalledPack>,
)
    requires
        call_ensures(rehash_reference, (reference, installed), migrated),
        component@ == reference.component@,
        call_ensures(find_pack, (installed, component), pack),
    ensures
        migrated is Ok <==> (pack matches Some(pack) && pack.healthy && pack.id@ == reference.id@
            && pack.version@ == reference.version@ && pack.format == reference.format
            && pack.dimensions == reference.dimensions),
        migrated matches Ok(migrated) ==> {
            &&& migrated.bytes == pack->Some_0.bytes
            &&& are_same_files(migrated.files@, pack->Some_0.files@)
            &&& migrated.component@ == reference.component@
            &&& migrated.id@ == reference.id@ && migrated.version@ == reference.version@
            &&& migrated.format == reference.format && migrated.dimensions == reference.dimensions
            &&& migrated.installed_by@ == reference.installed_by@
            &&& migrated.runtime_api_minor == reference.runtime_api_minor
            &&& text::optional(migrated.runtime_version) == text::optional(
                reference.runtime_version,
            )
        },
{
    if migrated is Ok {
        lemma_same_files(migrated->Ok_0.files@, pack->Some_0.files@);
    }
}

} // verus!
