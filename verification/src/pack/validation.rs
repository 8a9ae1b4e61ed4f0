//! What a ledger has to meet before it is used or written.

use vstd::hash_map::StringHashMap;
use vstd::prelude::*;
use vstd::string::*;

use crate::failure::{plain_failure, Failure, FailureView};
use crate::pack::records::{
    file_views, BuildInfo, FileView, PackFileDigest, PackReference, PackTrack, ReferenceView,
    TrackView,
};
use crate::pack::state::{entry_views, EntryView, PackState, StateView, STATE_FORMAT};
use crate::path::{is_safe_component, is_safe_relative, safe_component, safe_relative};
use crate::text;

verus! {

/// Whether a character is a lower-case hexadecimal digit.
pub open spec fn is_hex_digit(c: char) -> bool {
    '0' <= c <= '9' || 'a' <= c <= 'f'
}

/// Whether a file stays within its pack and has a SHA-256 digest.
pub open spec fn is_safe_file(file: FileView) -> bool {
    &&& is_safe_relative(file.path)
    &&& file.sha256.len() == 64
    &&& forall|i: int| 0 <= i < 64 ==> is_hex_digit(#[trigger] file.sha256[i])
}

/// Tells whether a file stays within its pack and has a SHA-256 digest.
pub fn safe_file_digest(file: &PackFileDigest) -> (safe: bool)
    ensures
        safe == is_safe_file(file@),
{
    if !safe_relative(file.path.as_str()) {
        return false;
    }
    let digits = text::characters(file.sha256.as_str());
    if digits.len() != 64 {
        return false;
    }
    let mut position: usize = 0;
    while position < 64
        invariant
            position <= 64,
            digits@ == file.sha256@,
            digits@.len() == 64,
            forall|i: int| 0 <= i < position ==> is_hex_digit(#[trigger] file.sha256@[i]),
        decreases 64 - position,
    {
        let c = digits[position];
        if !(('0' <= c && c <= '9') || ('a' <= c && c <= 'f')) {
            assert(!is_hex_digit(file.sha256@[position as int]));
            return false;
        }
        position = position + 1;
    }
    true
}

/// What is wrong with the files from the first of `files` on, after files with the paths `seen` and
/// `total` bytes; or the bytes of all of them.
pub open spec fn file_bytes(files: Seq<FileView>, seen: Seq<Seq<char>>, total: u64) -> Result<
    u64,
    FailureView,
>
    decreases files.len(),
{
    if files.len() == 0 {
        Ok(total)
    } else if !is_safe_file(files[0]) {
        Err(plain_failure("invalid model-pack file digest in state"@))
    } else if seen.contains(files[0].path) {
        Err(plain_failure("duplicate model-pack file digest in state"@))
    } else if total + files[0].bytes > u64::MAX {
        Err(plain_failure("model-pack file sizes overflow in state"@))
    } else {
        file_bytes(files.drop_first(), seen.push(files[0].path), (total + files[0].bytes) as u64)
    }
}

/// What is wrong with a reference.
pub open spec fn reference_fault(reference: ReferenceView) -> Option<FailureView> {
    if !is_safe_component(reference.component) {
        Some(plain_failure("invalid pack component"@))
    } else if text::is_blank(reference.id) {
        Some(plain_failure("empty pack id in state"@))
    } else if text::is_blank(reference.version) {
        Some(plain_failure("empty pack version in state"@))
    } else if reference.format == 0 {
        Some(plain_failure("invalid pack format in state"@))
    } else if reference.dimensions == 0 {
        Some(plain_failure("invalid pack dimensions in state"@))
    } else if reference.runtime_api_minor == 0 {
        Some(plain_failure("invalid runtime API in state"@))
    } else {
        match file_bytes(reference.files, Seq::empty(), 0) {
            Err(failure) => Some(failure),
            Ok(total) => if reference.files.len() > 0 && total != reference.bytes {
                Some(plain_failure("model-pack byte total differs from file digests"@))
            } else {
                None
            },
        }
    }
}

/// Whether a map has the texts of a sequence as its keys.
spec fn has_keys(map: Map<Seq<char>, bool>, texts: Seq<Seq<char>>) -> bool {
    forall|text: Seq<char>| #[trigger] map.contains_key(text) <==> texts.contains(text)
}

proof fn lemma_has_keys_push(
    before: Map<Seq<char>, bool>,
    after: Map<Seq<char>, bool>,
    texts: Seq<Seq<char>>,
    added: Seq<char>,
)
    requires
        has_keys(before, texts),
        after == before.insert(added, true),
    ensures
        has_keys(after, texts.push(added)),
{
    assert forall|text: Seq<char>| #[trigger]
        after.contains_key(text) <==> texts.push(added).contains(text) by {
        assert(before.contains_key(text) <==> texts.contains(text));
        if texts.contains(text) {
            let k = choose|k: int| 0 <= k < texts.len() && texts[k] == text;
            assert(texts.push(added)[k] == text);
        }
        if text == added {
            assert(texts.push(added).last() == text);
        }
        if texts.push(added).contains(text) && text != added {
            let k = choose|k: int|
                0 <= k < texts.push(added).len() && texts.push(added)[k] == text;
            assert(texts[k] == text);
        }
    }
}

fn count_bytes(files: &Vec<PackFileDigest>) -> (total: Result<u64, Failure>)
    ensures
        match (total, file_bytes(file_views(files@), Seq::empty(), 0)) {
            (Ok(total), Ok(expected)) => total == expected,
            (Err(failure), Err(expected)) => failure@ == expected,
            _ => false,
        },
{
    let ghost views = file_views(files@);
    let mut paths: StringHashMap<bool> = StringHashMap::new();
    let ghost mut seen: Seq<Seq<char>> = Seq::empty();
    let mut total: u64 = 0;
    let mut position: usize = 0;
    assert(views.skip(0) =~= views);
    while position < files.len()
        invariant
            views == file_views(files@),
            position <= files@.len(),
            has_keys(paths@, seen),
            file_bytes(views, Seq::empty(), 0) == file_bytes(
                views.skip(position as int),
                seen,
                total,
            ),
        decreases files@.len() - position,
    {
        let file = &files[position];
        proof {
            assert(views.skip(position as int)[0] == file@);
            assert(views.skip(position as int).drop_first() =~= views.skip(position + 1));
        }
        if !safe_file_digest(file) {
            return Err(Failure::plain("invalid model-pack file digest in state"));
        }
        if paths.contains_key(file.path.as_str()) {
            return Err(Failure::plain("duplicate model-pack file digest in state"));
        }
        let ghost before = paths@;
        paths.insert(file.path.clone(), true);
        total = match total.checked_add(file.bytes) {
            Some(sum) => sum,
            None => return Err(Failure::plain("model-pack file sizes overflow in state")),
        };
        proof {
            lemma_has_keys_push(before, paths@, seen, file.path@);
            seen = seen.push(file.path@);
        }
        position = position + 1;
    }
    Ok(total)
}

/// Checks a reference.
pub fn validate_reference(reference: &PackReference) -> (result: Result<(), Failure>)
    ensures
        match (result, reference_fault(reference@)) {
            (Ok(_), None) => true,
            (Err(failure), Some(fault)) => failure@ == fault,
            _ => false,
        },
{
    if !safe_component(reference.component.as_str()) {
        return Err(Failure::plain("invalid pack component"));
    }
    if text::blank(reference.id.as_str()) {
        return Err(Failure::plain("empty pack id in state"));
    }
    if text::blank(reference.version.as_str()) {
        return Err(Failure::plain("empty pack version in state"));
    }
    if reference.format == 0 {
        return Err(Failure::plain("invalid pack format in state"));
    }
    if reference.dimensions == 0 {
        return Err(Failure::plain("invalid pack dimensions in state"));
    }
    if reference.runtime_api_minor == 0 {
        return Err(Failure::plain("invalid runtime API in state"));
    }
    let total: u64 = match count_bytes(&reference.files) {
        Ok(total) => total,
        Err(failure) => return Err(failure),
    };
    assert(file_views(reference.files@).len() == reference.files@.len());
    if reference.files.len() > 0 && total != reference.bytes {
        return Err(Failure::plain("model-pack byte total differs from file digests"));
    }
    Ok(())
}

/// What is wrong with a track of an id, after tracks with the components `seen`.
pub open spec fn track_fault(
    id: Seq<char>,
    track: TrackView,
    seen: Seq<Seq<char>>,
) -> Option<FailureView> {
    if text::is_blank(id) || id != track.active.id {
        Some(plain_failure("invalid active pack identity"@))
    } else if reference_fault(track.active) is Some {
        reference_fault(track.active)
    } else if seen.contains(track.active.component) {
        Some(plain_failure("duplicate pack component"@))
    } else {
        match track.previous {
            None => None,
            Some(previous) => if previous.id != id {
                Some(plain_failure("invalid previous pack identity"@))
            } else if reference_fault(previous) is Some {
                reference_fault(previous)
            } else if seen.push(track.active.component).contains(previous.component) {
                Some(plain_failure("duplicate pack component"@))
            } else {
                None
            },
        }
    }
}

/// The components of a track, behind those seen before.
pub open spec fn track_components(track: TrackView, seen: Seq<Seq<char>>) -> Seq<Seq<char>> {
    match track.previous {
        Some(previous) => seen.push(track.active.component).push(previous.component),
        None => seen.push(track.active.component),
    }
}

/// What is wrong with the entries of a ledger, after entries with the components `seen`.
pub open spec fn entries_fault(packs: Seq<EntryView>, seen: Seq<Seq<char>>) -> Option<FailureView>
    decreases packs.len(),
{
    if packs.len() == 0 {
        None
    } else {
        match track_fault(packs[0].id, packs[0].track, seen) {
            Some(fault) => Some(fault),
            None => entries_fault(
                packs.drop_first(),
                track_components(packs[0].track, seen),
            ),
        }
    }
}

/// What is wrong with a ledger.
pub open spec fn state_fault(state: StateView) -> Option<FailureView> {
    if state.format != STATE_FORMAT {
        Some(plain_failure("unsupported model-pack state format"@))
    } else {
        entries_fault(state.packs, Seq::empty())
    }
}

fn check_track(
    id: &str,
    track: &PackTrack,
    components: &mut StringHashMap<bool>,
    Ghost(seen): Ghost<Seq<Seq<char>>>,
) -> (result: Result<(), Failure>)
    requires
        has_keys(old(components)@, seen),
    ensures
        match (result, track_fault(id@, track@, seen)) {
            (Ok(_), None) => has_keys(final(components)@, track_components(track@, seen)),
            (Err(failure), Some(fault)) => failure@ == fault,
            _ => false,
        },
{
    if text::blank(id) || !text::same(id, track.active.id.as_str()) {
        return Err(Failure::plain("invalid active pack identity"));
    }
    if let Err(failure) = validate_reference(&track.active) {
        return Err(failure);
    }
    if components.contains_key(track.active.component.as_str()) {
        return Err(Failure::plain("duplicate pack component"));
    }
    let ghost before = components@;
    components.insert(track.active.component.clone(), true);
    proof {
        lemma_has_keys_push(before, components@, seen, track.active.component@);
    }
    if let Some(previous) = &track.previous {
        if !text::same(previous.id.as_str(), id) {
            return Err(Failure::plain("invalid previous pack identity"));
        }
        if let Err(failure) = validate_reference(previous) {
            return Err(failure);
        }
        if components.contains_key(previous.component.as_str()) {
            return Err(Failure::plain("duplicate pack component"));
        }
        let ghost before = components@;
        components.insert(previous.component.clone(), true);
        proof {
            lemma_has_keys_push(
                before,
                components@,
                seen.push(track.active.component@),
                previous.component@,
            );
        }
    }
    Ok(())
}

/// Checks a ledger.
pub fn validate_state(state: &PackState) -> (result: Result<(), Failure>)
    ensures
        match (result, state_fault(state@)) {
            (Ok(_), None) => true,
            (Err(failure), Some(fault)) => failure@ == fault,
            _ => false,
        },
{
    if state.format != STATE_FORMAT {
        return Err(Failure::plain("unsupported model-pack state format"));
    }
    let ghost views = state@.packs;
    let mut components: StringHashMap<bool> = StringHashMap::new();
    let ghost mut seen: Seq<Seq<char>> = Seq::empty();
    let mut position: usize = 0;
    assert(views.skip(0) =~= views);
    while position < state.packs.len()
        invariant
            views == entry_views(state.packs@),
            position <= state.packs@.len(),
            has_keys(components@, seen),
            entries_fault(views, Seq::empty()) == entries_fault(views.skip(position as int), seen),
            state.format == STATE_FORMAT,
        decreases state.packs@.len() - position,
    {
        let entry = &state.packs[position];
        proof {
            assert(views.skip(position as int)[0] == entry@);
            assert(views.skip(position as int).drop_first() =~= views.skip(position + 1));
        }
        if let Err(failure) = check_track(
            entry.id.as_str(),
            &entry.track,
            &mut components,
            Ghost(seen),
        ) {
            return Err(failure);
        }
        proof {
            seen = track_components(entry.track@, seen);
        }
        position = position + 1;
    }
    Ok(())
}

/// The ledger as it is written: under the name of the program that writes it.
pub fn stamped(state: &PackState, build: &BuildInfo) -> (result: Result<PackState, Failure>)
    ensures
        match (result, state_fault(state@)) {
            (Ok(written), None) => written@ == (StateView {
                written_by: build.version@,
                ..state@
            }),
            (Err(failure), Some(fault)) => failure@ == fault,
            _ => false,
        },
{
    if let Err(failure) = validate_state(state) {
        return Err(failure);
    }
    let mut written = state.copy();
    written.written_by = build.version.clone();
    Ok(written)
}

} // verus!
