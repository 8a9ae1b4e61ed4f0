//! Which ledgers are used and written.

use vstd::prelude::*;
use vstd::string::*;

use crate::failure::Failure;
use crate::pack::records::{file_views, BuildInfo, FileView, PackFileDigest, PackReference};
use crate::pack::state::{entry_views, EntryView, PackState};
use crate::pack::validation::{
    entries_fault, file_bytes, reference_fault, safe_file_digest, stamped, track_components,
    track_fault, validate_reference, validate_state,
};
use crate::path_laws::{names_something, steps_up};
use crate::ranking_laws::says_something;

verus! {

/// Whether a path stays below the pack and names something.
pub open spec fn is_inner_path(path: Seq<char>) -> bool {
    !(path.len() > 0 && path[0] == '/') && !steps_up(path) && names_something(path)
}

/// Whether a text is a SHA-256 digest: sixty-four hexadecimal digits, none in upper case.
pub open spec fn is_digest(text: Seq<char>) -> bool {
    text.len() == 64 && forall|i: int|
        0 <= i < 64 ==> '0' <= #[trigger] text[i] <= '9' || 'a' <= text[i] <= 'f'
}

proof fn lemma_safe_file(file: FileView)
    ensures
        crate::pack::validation::is_safe_file(file) <==> is_inner_path(file.path) && is_digest(
            file.sha256,
        ),
{
    crate::path_laws::lemma_safe_relative(file.path);
    if crate::pack::validation::is_safe_file(file) {
        assert forall|i: int| 0 <= i < 64 implies '0' <= #[trigger] file.sha256[i] <= '9' || 'a'
            <= file.sha256[i] <= 'f' by {
            assert(crate::pack::validation::is_hex_digit(file.sha256[i]));
        }
    }
    if is_digest(file.sha256) {
        assert forall|i: int| 0 <= i < 64 implies crate::pack::validation::is_hex_digit(
            #[trigger] file.sha256[i],
        ) by {
        }
    }
}

/// A file is safe if and only if its path stays below the pack and its digest is one.
pub proof fn law_safe_files(file: &PackFileDigest, safe: bool)
    requires
        call_ensures(safe_file_digest, (file,), safe),
    ensures
        safe <==> is_inner_path(file.path@) && is_digest(file.sha256@),
{
    lemma_safe_file(file@);
}

/// The bytes of files together.
pub open spec fn total_bytes(files: Seq<FileView>) -> nat
    decreases files.len(),
{
    if files.len() == 0 {
        0
    } else {
        files[0].bytes as nat + total_bytes(files.drop_first())
    }
}

/// Whether all files are safe and no two have the same path.
pub open spec fn are_separate_files(files: Seq<FileView>) -> bool {
    &&& forall|i: int|
        0 <= i < files.len() ==> is_inner_path((#[trigger] files[i]).path) && is_digest(
            files[i].sha256,
        )
    &&& forall|i: int, j: int|
        0 <= i < j < files.len() ==> (#[trigger] files[i]).path != (#[trigger] files[j]).path
}

proof fn lemma_file_bytes(files: Seq<FileView>, seen: Seq<Seq<char>>, total: u64)
    ensures
        file_bytes(files, seen, total) is Ok <==> {
            &&& are_separate_files(files)
            &&& forall|i: int| 0 <= i < files.len() ==> !seen.contains((#[trigger] files[i]).path)
            &&& total + total_bytes(files) <= u64::MAX
        },
        file_bytes(files, seen, total) matches Ok(sum) ==> sum == total + total_bytes(files),
    decreases files.len(),
{
    if files.len() > 0 {
        let rest = files.drop_first();
        let more = seen.push(files[0].path);
        lemma_safe_file(files[0]);
        assert forall|i: int| 0 <= i < rest.len() implies #[trigger] rest[i] == files[i + 1] by {
        }
        assert forall|path: Seq<char>| #[trigger] more.contains(path) <==> seen.contains(path) || path
            == files[0].path by {
            if more.contains(path) {
                let k = choose|k: int| 0 <= k < more.len() && more[k] == path;
                if k < seen.len() {
                    assert(seen[k] == path);
                }
            }
            if seen.contains(path) {
                let k = choose|k: int| 0 <= k < seen.len() && seen[k] == path;
                assert(more[k] == path);
            }
            if path == files[0].path {
                assert(more[seen.len() as int] == path);
            }
        }
        if total + files[0].bytes <= u64::MAX {
            lemma_file_bytes(rest, more, (total + files[0].bytes) as u64);
        }
        let sound = {
            &&& are_separate_files(files)
            &&& forall|i: int| 0 <= i < files.len() ==> !seen.contains((#[trigger] files[i]).path)
            &&& total + total_bytes(files) <= u64::MAX
        };
        if sound {
            assert(!seen.contains(files[0].path));
            assert(is_inner_path(files[0].path));
            assert forall|i: int| 0 <= i < rest.len() implies !more.contains(
                (#[trigger] rest[i]).path,
            ) by {
                assert(rest[i] == files[i + 1]);
                assert(files[0].path != files[i + 1].path);
            }
            assert(are_separate_files(rest)) by {
                assert forall|i: int, j: int| 0 <= i < j < rest.len() implies (
                #[trigger] rest[i]).path != (#[trigger] rest[j]).path by {
                    assert(files[i + 1].path != files[j + 1].path);
                }
            }
        }
        if file_bytes(files, seen, total) is Ok {
            assert forall|i: int| 0 <= i < files.len() implies is_inner_path(
                (#[trigger] files[i]).path,
            ) && is_digest(files[i].sha256) && !seen.contains(files[i].path) by {
                if i > 0 {
                    assert(rest[i - 1] == files[i]);
                    assert(!more.contains(rest[i - 1].path));
                }
            }
            assert forall|i: int, j: int| 0 <= i < j < files.len() implies (
            #[trigger] files[i]).path != (#[trigger] files[j]).path by {
                assert(rest[j - 1] == files[j]);
                if i > 0 {
                    assert(rest[i - 1] == files[i]);
                } else {
                    assert(!more.contains(rest[j - 1].path));
                }
            }
        }
    }
}

/// Whether a reference to a pack is sound.
pub open spec fn is_sound_reference(reference: crate::pack::records::ReferenceView) -> bool {
    &&& crate::path::is_safe_component(reference.component)
    &&& says_something(reference.id)
    &&& says_something(reference.version)
    &&& reference.format > 0
    &&& reference.dimensions > 0
    &&& reference.runtime_api_minor > 0
    &&& are_separate_files(reference.files)
    &&& total_bytes(reference.files) <= u64::MAX
    &&& reference.files.len() > 0 ==> total_bytes(reference.files) == reference.bytes
}

proof fn lemma_reference(reference: crate::pack::records::ReferenceView)
    ensures
        reference_fault(reference) is None <==> is_sound_reference(reference),
{
    lemma_file_bytes(reference.files, Seq::empty(), 0);
}

/// A reference to a pack is valid if and only if its component names one directory, its id and version
/// say something, its numbers are not zero, its files are safe and none is there twice, and their bytes
/// add up to those of the pack.
pub proof fn law_valid_references(
    reference: &PackReference,
    result: Result<(), Failure>,
    safe: bool,
    component: &str,
)
    requires
        call_ensures(validate_reference, (reference,), result),
        component@ == reference.component@,
        call_ensures(crate::path::safe_component, (component,), safe),
    ensures
        result is Ok <==> {
            let files = file_views(reference.files@);
            &&& safe
            &&& says_something(reference.id@)
            &&& says_something(reference.version@)
            &&& reference.format > 0
            &&& reference.dimensions > 0
            &&& reference.runtime_api_minor > 0
            &&& are_separate_files(files)
            &&& total_bytes(files) <= u64::MAX
            &&& reference.files@.len() > 0 ==> total_bytes(files) == reference.bytes
        },
{
    lemma_reference(reference@);
}

/// Whether a track belongs to its id and refers to sound packs.
pub open spec fn is_sound_track(entry: EntryView) -> bool {
    &&& says_something(entry.id)
    &&& entry.track.active.id == entry.id
    &&& is_sound_reference(entry.track.active)
    &&& entry.track.previous matches Some(previous) ==> previous.id == entry.id
        && is_sound_reference(previous) && previous.component != entry.track.active.component
}

/// Whether a track refers to a component.
pub open spec fn refers_to(entry: EntryView, component: Seq<char>) -> bool {
    entry.track.active.component == component || (entry.track.previous matches Some(previous)
        && previous.component == component)
}

/// Whether all tracks are sound and no component is referred to twice.
pub open spec fn are_sound_tracks(packs: Seq<EntryView>) -> bool {
    &&& forall|i: int| 0 <= i < packs.len() ==> is_sound_track(#[trigger] packs[i])
    &&& forall|i: int, j: int, component: Seq<char>|
        0 <= i < j < packs.len() && #[trigger] refers_to(packs[i], component)
            ==> !(#[trigger] refers_to(packs[j], component))
}

proof fn lemma_pushed(texts: Seq<Seq<char>>, text: Seq<char>, other: Seq<char>)
    ensures
        texts.push(text).contains(other) <==> texts.contains(other) || other == text,
{
    let more = texts.push(text);
    if more.contains(other) {
        let k = choose|k: int| 0 <= k < more.len() && more[k] == other;
        if k < texts.len() {
            assert(texts[k] == other);
        }
    }
    if texts.contains(other) {
        let k = choose|k: int| 0 <= k < texts.len() && texts[k] == other;
        assert(more[k] == other);
    }
    if other == text {
        assert(more[texts.len() as int] == other);
    }
}

proof fn lemma_track(entry: EntryView, seen: Seq<Seq<char>>)
    ensures
        track_fault(entry.id, entry.track, seen) is None <==> is_sound_track(entry) && forall|
            component: Seq<char>,
        | #[trigger] refers_to(entry, component) ==> !seen.contains(component),
        forall|component: Seq<char>| #[trigger]
            track_components(entry.track, seen).contains(component) <==> seen.contains(component)
                || refers_to(entry, component),
{
    let active = entry.track.active;
    lemma_reference(active);
    assert(refers_to(entry, active.component));
    if let Some(previous) = entry.track.previous {
        lemma_reference(previous);
        assert(refers_to(entry, previous.component));
        lemma_pushed(seen, active.component, previous.component);
    }
    assert forall|component: Seq<char>| #[trigger]
        track_components(entry.track, seen).contains(component) <==> seen.contains(component)
            || refers_to(entry, component) by {
        lemma_pushed(seen, active.component, component);
        if let Some(previous) = entry.track.previous {
            lemma_pushed(seen.push(active.component), previous.component, component);
        }
    }
}

proof fn lemma_entries(packs: Seq<EntryView>, seen: Seq<Seq<char>>)
    ensures
        entries_fault(packs, seen) is None <==> are_sound_tracks(packs) && forall|
            i: int,
            component: Seq<char>,
        |
            0 <= i < packs.len() && #[trigger] refers_to(packs[i], component) ==> !seen.contains(
                component,
            ),
    decreases packs.len(),
{
    if packs.len() > 0 {
        let rest = packs.drop_first();
        let more = track_components(packs[0].track, seen);
        lemma_track(packs[0], seen);
        lemma_entries(rest, more);
        assert forall|i: int| 0 <= i < rest.len() implies #[trigger] rest[i] == packs[i + 1] by {
        }
        let sound = are_sound_tracks(packs) && forall|i: int, component: Seq<char>|
            0 <= i < packs.len() && #[trigger] refers_to(packs[i], component) ==> !seen.contains(
                component,
            );
        if sound {
            assert(is_sound_track(packs[0]));
            assert forall|i: int, component: Seq<char>|
                0 <= i < rest.len() && #[trigger] refers_to(
                    rest[i],
                    component,
                ) implies !more.contains(component) by {
                assert(rest[i] == packs[i + 1]);
                assert(refers_to(packs[i + 1], component));
                if refers_to(packs[0], component) {
                    assert(!refers_to(packs[i + 1], component));
                }
            }
            assert(are_sound_tracks(rest)) by {
                assert forall|i: int| 0 <= i < rest.len() implies is_sound_track(
                    #[trigger] rest[i],
                ) by {
                    assert(rest[i] == packs[i + 1]);
                }
                assert forall|i: int, j: int, component: Seq<char>|
                    0 <= i < j < rest.len() && #[trigger] refers_to(
                        rest[i],
                        component,
                    ) implies !(#[trigger] refers_to(rest[j], component)) by {
                    assert(rest[i] == packs[i + 1] && rest[j] == packs[j + 1]);
                    assert(refers_to(packs[i + 1], component));
                    assert(!refers_to(packs[j + 1], component));
                }
            }
        }
        if entries_fault(packs, seen) is None {
            assert forall|i: int| 0 <= i < packs.len() implies is_sound_track(
                #[trigger] packs[i],
            ) by {
                if i > 0 {
                    assert(rest[i - 1] == packs[i]);
                }
            }
            assert forall|i: int, component: Seq<char>|
                0 <= i < packs.len() && #[trigger] refers_to(
                    packs[i],
                    component,
                ) implies !seen.contains(component) by {
                if i > 0 {
                    assert(rest[i - 1] == packs[i]);
                    assert(refers_to(rest[i - 1], component));
                    assert(!more.contains(component));
                }
            }
            assert forall|i: int, j: int, component: Seq<char>|
                0 <= i < j < packs.len() && #[trigger] refers_to(packs[i], component) implies !(
            #[trigger] refers_to(packs[j], component)) by {
                assert(rest[j - 1] == packs[j]);
                if i > 0 {
                    assert(rest[i - 1] == packs[i]);
                    assert(refers_to(rest[i - 1], component));
                    assert(!refers_to(rest[j - 1], component));
                } else if refers_to(packs[j], component) {
                    assert(refers_to(rest[j - 1], component));
                    assert(!more.contains(component));
                }
            }
        }
    }
}

/// A ledger is valid if and only if it is of the known format, all its tracks are sound and belong to
/// their ids, and no component is referred to twice.
pub proof fn law_valid_ledgers(state: &PackState, result: Result<(), Failure>)
    requires
        call_ensures(validate_state, (state,), result),
    ensures
        result is Ok <==> state.format == 1 && are_sound_tracks(entry_views(state.packs@)),
{
    lemma_entries(state@.packs, Seq::empty());
}

/// A ledger is written if and only if it is valid. What is written is the ledger, under the name of the
/// program that writes it.
pub proof fn law_written_ledgers_are_valid(
    state: &PackState,
    build: &BuildInfo,
    result: Result<PackState, Failure>,
)
    requires
        call_ensures(stamped, (state, build), result),
    ensures
        result is Ok <==> state.format == 1 && are_sound_tracks(entry_views(state.packs@)),
        result matches Ok(written) ==> written.format == state.format && written.written_by@
            == build.version@ && entry_views(written.packs@) == entry_views(state.packs@),
{
    lemma_entries(state@.packs, Seq::empty());
}

} // verus!
