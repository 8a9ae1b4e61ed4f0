//! What holds of every ledger that the operations write.

use vstd::prelude::*;

use crate::pack::activation::{imported_track, ledger_after_removal, retired_previous, rolled_back};
use crate::pack::records::{BuildInfo, MetadataView, TrackView};
use crate::pack::scan::{InstalledView, PackRole};
use crate::pack::state::{
    is_ordered, lemma_drop_first_ordered, track_of, with_track, without_track, EntryView, StateView,
    STATE_FORMAT,
};
use crate::pack::transaction::{refers_to, track_refers_to};
use crate::pack::validation::{
    entries_fault, reference_fault, state_fault, track_components, track_fault,
};
use crate::text;
use crate::text::precedes;

verus! {

/// Whether a track is one of its id, has sound packs, and not the same component twice.
pub open spec fn is_sound_track(id: Seq<char>, track: TrackView) -> bool {
    &&& !text::is_blank(id)
    &&& id == track.active.id
    &&& reference_fault(track.active) is None
    &&& track.previous matches Some(previous) ==> {
        &&& previous.id == id
        &&& reference_fault(previous) is None
        &&& previous.component != track.active.component
    }
}

/// Whether two tracks share no component.
pub open spec fn are_apart(left: TrackView, right: TrackView) -> bool {
    forall|component: Seq<char>|
        !(#[trigger] track_refers_to(left, component) && track_refers_to(right, component))
}

/// Whether all tracks are sound, and no component is in two of them.
pub open spec fn is_sound_ledger(packs: Seq<EntryView>) -> bool {
    &&& forall|i: int|
        0 <= i < packs.len() ==> is_sound_track((#[trigger] packs[i]).id, packs[i].track)
    &&& forall|i: int, j: int|
        0 <= i < j < packs.len() ==> are_apart(
            (#[trigger] packs[i]).track,
            (#[trigger] packs[j]).track,
        )
}

proof fn lemma_track_fault(id: Seq<char>, track: TrackView, seen: Seq<Seq<char>>)
    ensures
        track_fault(id, track, seen) is None <==> is_sound_track(id, track) && forall|
            component: Seq<char>,
        | #[trigger]
            track_refers_to(track, component) ==> !seen.contains(component),
        forall|component: Seq<char>| #[trigger]
            track_components(track, seen).contains(component) <==> seen.contains(component)
                || track_refers_to(track, component),
{
    let active = track.active.component;
    let first = seen.push(active);
    assert forall|component: Seq<char>| #[trigger]
        first.contains(component) <==> seen.contains(component) || component == active by {
        lemma_push_contains(seen, active, component);
    }
    assert(track_refers_to(track, active));
    if let Some(previous) = track.previous {
        assert(track_refers_to(track, previous.component));
        assert(first.contains(previous.component) <==> seen.contains(previous.component)
            || previous.component == active);
        assert forall|component: Seq<char>| #[trigger]
            track_components(track, seen).contains(component) <==> seen.contains(component)
                || track_refers_to(track, component) by {
            lemma_push_contains(first, previous.component, component);
            assert(first.contains(component) <==> seen.contains(component) || component == active);
        }
    }
}

proof fn lemma_push_contains(texts: Seq<Seq<char>>, added: Seq<char>, text: Seq<char>)
    ensures
        texts.push(added).contains(text) <==> texts.contains(text) || text == added,
{
    let longer = texts.push(added);
    if texts.contains(text) {
        let k = choose|k: int| 0 <= k < texts.len() && texts[k] == text;
        assert(longer[k] == text);
    }
    if text == added {
        assert(longer[texts.len() as int] == text);
    }
    if longer.contains(text) {
        let k = choose|k: int| 0 <= k < longer.len() && longer[k] == text;
        if k < texts.len() {
            assert(texts[k] == text);
        }
    }
}

proof fn lemma_entries_fault(packs: Seq<EntryView>, seen: Seq<Seq<char>>)
    ensures
        entries_fault(packs, seen) is None <==> is_sound_ledger(packs) && forall|
            component: Seq<char>,
        | #[trigger]
            refers_to(packs, component) ==> !seen.contains(component),
    decreases packs.len(),
{
    if packs.len() > 0 {
        let first = packs[0];
        let rest = packs.drop_first();
        let after = track_components(first.track, seen);
        lemma_track_fault(first.id, first.track, seen);
        lemma_entries_fault(rest, after);
        assert forall|component: Seq<char>| #[trigger]
            refers_to(packs, component) <==> track_refers_to(first.track, component) || refers_to(
                rest,
                component,
            ) by {
            if refers_to(packs, component) {
                let k = choose|k: int|
                    0 <= k < packs.len() && track_refers_to((#[trigger] packs[k]).track, component);
                if k > 0 {
                    assert(track_refers_to(rest[k - 1].track, component));
                }
            }
            if refers_to(rest, component) {
                let k = choose|k: int|
                    0 <= k < rest.len() && track_refers_to((#[trigger] rest[k]).track, component);
                assert(track_refers_to(packs[k + 1].track, component));
            }
            if track_refers_to(first.track, component) {
                assert(track_refers_to(packs[0].track, component));
            }
        }
        if entries_fault(packs, seen) is None {
            assert forall|i: int| 0 <= i < packs.len() implies is_sound_track(
                (#[trigger] packs[i]).id,
                packs[i].track,
            ) by {
                if i > 0 {
                    assert(is_sound_track(rest[i - 1].id, rest[i - 1].track));
                }
            }
            assert forall|i: int, j: int| 0 <= i < j < packs.len() implies are_apart(
                (#[trigger] packs[i]).track,
                (#[trigger] packs[j]).track,
            ) by {
                assert(packs[j] == rest[j - 1]);
                if i > 0 {
                    assert(packs[i] == rest[i - 1]);
                    assert(are_apart(rest[i - 1].track, rest[j - 1].track));
                } else {
                    assert forall|component: Seq<char>|
                        !(#[trigger] track_refers_to(packs[i].track, component) && track_refers_to(
                            packs[j].track,
                            component,
                        )) by {
                        if track_refers_to(packs[i].track, component) && track_refers_to(
                            packs[j].track,
                            component,
                        ) {
                            assert(track_refers_to(rest[j - 1].track, component));
                            assert(refers_to(rest, component));
                            assert(after.contains(component));
                        }
                    }
                }
            }
            assert forall|component: Seq<char>| #[trigger]
                refers_to(packs, component) implies !seen.contains(component) by {
                if refers_to(rest, component) {
                    assert(!after.contains(component));
                }
            }
        }
        if is_sound_ledger(packs) && (forall|component: Seq<char>| #[trigger]
            refers_to(packs, component) ==> !seen.contains(component)) {
            assert(is_sound_track(packs[0].id, packs[0].track));
            assert forall|component: Seq<char>| #[trigger]
                track_refers_to(first.track, component) implies !seen.contains(component) by {
                assert(refers_to(packs, component));
            }
            assert forall|i: int| 0 <= i < rest.len() implies is_sound_track(
                (#[trigger] rest[i]).id,
                rest[i].track,
            ) by {
                assert(is_sound_track(packs[i + 1].id, packs[i + 1].track));
            }
            assert forall|i: int, j: int| 0 <= i < j < rest.len() implies are_apart(
                (#[trigger] rest[i]).track,
                (#[trigger] rest[j]).track,
            ) by {
                assert(are_apart(packs[i + 1].track, packs[j + 1].track));
            }
            assert forall|component: Seq<char>| #[trigger]
                refers_to(rest, component) implies !after.contains(component) by {
                assert(refers_to(packs, component));
                if track_refers_to(first.track, component) {
                    let k = choose|k: int|
                        0 <= k < rest.len() && track_refers_to(
                            (#[trigger] rest[k]).track,
                            component,
                        );
                    assert(are_apart(packs[0].track, packs[k + 1].track));
                }
            }
        }
    }
}

/// A ledger passes the check exactly if it has the known format, all its tracks are sound, and no
/// component is recorded twice.
pub proof fn law_valid_ledger(state: StateView)
    ensures
        state_fault(state) is None <==> state.format == STATE_FORMAT && is_sound_ledger(
            state.packs,
        ),
{
    lemma_entries_fault(state.packs, Seq::empty());
}

proof fn lemma_track_position(packs: Seq<EntryView>, id: Seq<char>) -> (position: int)
    requires
        track_of(packs, id) is Some,
    ensures
        0 <= position < packs.len(),
        packs[position].id == id,
        Some(packs[position].track) == track_of(packs, id),
    decreases packs.len(),
{
    if packs[0].id == id {
        0
    } else {
        1 + lemma_track_position(packs.drop_first(), id)
    }
}

proof fn lemma_with_track_updates(
    packs: Seq<EntryView>,
    id: Seq<char>,
    track: TrackView,
    position: int,
)
    requires
        is_ordered(packs),
        0 <= position < packs.len(),
        packs[position].id == id,
    ensures
        with_track(packs, id, track) == packs.update(position, EntryView { id, track }),
    decreases packs.len(),
{
    text::law_order_irreflexive(id);
    let rest = packs.drop_first();
    let wanted = packs.update(position, EntryView { id, track });
    if position == 0 {
        assert(seq![EntryView { id, track }] + rest =~= wanted);
    } else {
        assert(precedes(packs[0].id, packs[position].id));
        if precedes(id, packs[0].id) {
            text::law_order_transitive(id, packs[0].id, id);
        }
        lemma_drop_first_ordered(packs);
        assert(rest[position - 1] == packs[position]);
        lemma_with_track_updates(rest, id, track, position - 1);
        assert(seq![packs[0]] + rest.update(position - 1, EntryView { id, track }) =~= wanted);
    }
}

proof fn lemma_with_track_inserts(packs: Seq<EntryView>, id: Seq<char>, track: TrackView) -> (position:
    int)
    requires
        is_ordered(packs),
        track_of(packs, id) is None,
    ensures
        0 <= position <= packs.len(),
        with_track(packs, id, track) == packs.insert(position, EntryView { id, track }),
    decreases packs.len(),
{
    let entry = EntryView { id, track };
    if packs.len() == 0 || precedes(id, packs[0].id) {
        assert(seq![entry] + packs =~= packs.insert(0, entry));
        0
    } else {
        let rest = packs.drop_first();
        lemma_drop_first_ordered(packs);
        let position = lemma_with_track_inserts(rest, id, track);
        assert(seq![packs[0]] + rest.insert(position, entry) =~= packs.insert(position + 1, entry));
        position + 1
    }
}

proof fn lemma_without_track_removes(packs: Seq<EntryView>, id: Seq<char>, position: int)
    requires
        is_ordered(packs),
        0 <= position < packs.len(),
        packs[position].id == id,
    ensures
        without_track(packs, id) == packs.remove(position),
    decreases packs.len(),
{
    let rest = packs.drop_first();
    if position == 0 {
        assert(rest =~= packs.remove(0));
    } else {
        assert(precedes(packs[0].id, packs[position].id));
        text::law_order_irreflexive(id);
        lemma_drop_first_ordered(packs);
        assert(rest[position - 1] == packs[position]);
        lemma_without_track_removes(rest, id, position - 1);
        assert(seq![packs[0]] + rest.remove(position - 1) =~= packs.remove(position));
    }
}

proof fn lemma_without_absent(packs: Seq<EntryView>, id: Seq<char>)
    requires
        track_of(packs, id) is None,
    ensures
        without_track(packs, id) == packs,
    decreases packs.len(),
{
    if packs.len() > 0 {
        lemma_without_absent(packs.drop_first(), id);
        assert(seq![packs[0]] + packs.drop_first() =~= packs);
    }
}

/// A track may take the place of another if it has no component that the others have.
proof fn lemma_update_keeps_sound(packs: Seq<EntryView>, position: int, entry: EntryView)
    requires
        is_sound_ledger(packs),
        0 <= position < packs.len(),
        is_sound_track(entry.id, entry.track),
        forall|component: Seq<char>| #[trigger]
            track_refers_to(entry.track, component) ==> track_refers_to(
                packs[position].track,
                component,
            ) || !refers_to(packs, component),
    ensures
        is_sound_ledger(packs.update(position, entry)),
{
    let after = packs.update(position, entry);
    assert forall|i: int, j: int| 0 <= i < j < after.len() implies are_apart(
        (#[trigger] after[i]).track,
        (#[trigger] after[j]).track,
    ) by {
        assert(are_apart(packs[i].track, packs[j].track));
        assert forall|component: Seq<char>|
            !(#[trigger] track_refers_to(after[i].track, component) && track_refers_to(
                after[j].track,
                component,
            )) by {
            if track_refers_to(after[i].track, component) && track_refers_to(
                after[j].track,
                component,
            ) {
                if i == position {
                    assert(track_refers_to(packs[j].track, component));
                    assert(refers_to(packs, component));
                    assert(track_refers_to(packs[i].track, component));
                } else if j == position {
                    assert(track_refers_to(packs[i].track, component));
                    assert(refers_to(packs, component));
                } else {
                    assert(track_refers_to(packs[i].track, component));
                }
            }
        }
    }
}

proof fn lemma_insert_keeps_sound(packs: Seq<EntryView>, position: int, entry: EntryView)
    requires
        is_sound_ledger(packs),
        0 <= position <= packs.len(),
        is_sound_track(entry.id, entry.track),
        forall|component: Seq<char>| #[trigger]
            track_refers_to(entry.track, component) ==> !refers_to(packs, component),
    ensures
        is_sound_ledger(packs.insert(position, entry)),
{
    let after = packs.insert(position, entry);
    assert forall|i: int| 0 <= i < after.len() implies is_sound_track(
        (#[trigger] after[i]).id,
        after[i].track,
    ) by {
        if i < position {
            assert(after[i] == packs[i]);
        } else if i > position {
            assert(after[i] == packs[i - 1]);
        }
    }
    assert forall|i: int, j: int| 0 <= i < j < after.len() implies are_apart(
        (#[trigger] after[i]).track,
        (#[trigger] after[j]).track,
    ) by {
        let a = if i < position {
            i
        } else {
            i - 1
        };
        let b = if j < position {
            j
        } else {
            j - 1
        };
        if i != position && j != position {
            assert(after[i] == packs[a] && after[j] == packs[b]);
            assert(are_apart(packs[a].track, packs[b].track));
        } else {
            assert forall|component: Seq<char>|
                !(#[trigger] track_refers_to(after[i].track, component) && track_refers_to(
                    after[j].track,
                    component,
                )) by {
                if track_refers_to(after[i].track, component) && track_refers_to(
                    after[j].track,
                    component,
                ) {
                    if i == position {
                        assert(after[j] == packs[b]);
                        assert(track_refers_to(packs[b].track, component));
                    } else {
                        assert(after[i] == packs[a]);
                        assert(track_refers_to(packs[a].track, component));
                    }
                    assert(refers_to(packs, component));
                }
            }
        }
    }
}

proof fn lemma_remove_keeps_sound(packs: Seq<EntryView>, position: int)
    requires
        is_sound_ledger(packs),
        0 <= position < packs.len(),
    ensures
        is_sound_ledger(packs.remove(position)),
{
    let after = packs.remove(position);
    assert forall|i: int| 0 <= i < after.len() implies is_sound_track(
        (#[trigger] after[i]).id,
        after[i].track,
    ) by {
        if i < position {
            assert(after[i] == packs[i]);
        } else {
            assert(after[i] == packs[i + 1]);
        }
    }
    assert forall|i: int, j: int| 0 <= i < j < after.len() implies are_apart(
        (#[trigger] after[i]).track,
        (#[trigger] after[j]).track,
    ) by {
        let a = if i < position {
            i
        } else {
            i + 1
        };
        let b = if j < position {
            j
        } else {
            j + 1
        };
        assert(after[i] == packs[a] && after[j] == packs[b]);
        assert(are_apart(packs[a].track, packs[b].track));
    }
}

/// Rolling back turns a valid ledger into a valid one.
pub proof fn law_rollback_keeps_ledger_valid(
    state: StateView,
    installed: Seq<InstalledView>,
    id: Seq<char>,
)
    requires
        is_ordered(state.packs),
        state_fault(state) is None,
        rolled_back(state.packs, installed, id) is Ok,
    ensures
        state_fault(
            StateView {
                packs: with_track(state.packs, id, rolled_back(state.packs, installed, id)->Ok_0),
                ..state
            },
        ) is None,
{
    let packs = state.packs;
    let track = rolled_back(packs, installed, id)->Ok_0;
    law_valid_ledger(state);
    let position = lemma_track_position(packs, id);
    lemma_with_track_updates(packs, id, track, position);
    assert(is_sound_track(packs[position].id, packs[position].track));
    lemma_update_keeps_sound(packs, position, EntryView { id, track });
    law_valid_ledger(StateView { packs: with_track(packs, id, track), ..state });
}

/// Removing a pack turns a valid ledger into a valid one.
pub proof fn law_removal_keeps_ledger_valid(
    state: StateView,
    id: Seq<char>,
    target: InstalledView,
)
    requires
        is_ordered(state.packs),
        state_fault(state) is None,
    ensures
        state_fault(
            StateView { packs: ledger_after_removal(state.packs, id, target).0, ..state },
        ) is None,
{
    let packs = state.packs;
    let after = ledger_after_removal(packs, id, target).0;
    law_valid_ledger(state);
    if target.role == PackRole::Active {
        crate::pack::state::law_without_track(packs, id, id);
        if track_of(packs, id) is Some {
            let position = lemma_track_position(packs, id);
            lemma_without_track_removes(packs, id, position);
            lemma_remove_keeps_sound(packs, position);
        } else {
            lemma_without_absent(packs, id);
        }
    } else if let Some(track) = retired_previous(packs, id, target.component) {
        let position = lemma_track_position(packs, id);
        lemma_with_track_updates(packs, id, track, position);
        assert(is_sound_track(packs[position].id, packs[position].track));
        lemma_update_keeps_sound(packs, position, EntryView { id, track });
    }
    law_valid_ledger(StateView { packs: after, ..state });
}

/// Importing a sound pack under a component that the ledger does not refer to turns a valid ledger
/// into a valid one.
pub proof fn law_import_keeps_ledger_valid(
    state: StateView,
    component: Seq<char>,
    metadata: MetadataView,
    runtime_version: Option<Seq<char>>,
    build: BuildInfo,
)
    requires
        is_ordered(state.packs),
        state_fault(state) is None,
        !refers_to(state.packs, component),
        reference_fault(
            crate::pack::records::installed_reference(component, metadata, runtime_version, build),
        ) is None,
    ensures
        state_fault(
            StateView {
                packs: with_track(
                    state.packs,
                    metadata.id,
                    imported_track(
                        component,
                        metadata,
                        runtime_version,
                        track_of(state.packs, metadata.id),
                        build,
                    ),
                ),
                ..state
            },
        ) is None,
{
    let packs = state.packs;
    let id = metadata.id;
    let prior = track_of(packs, id);
    let track = imported_track(component, metadata, runtime_version, prior, build);
    law_valid_ledger(state);
    match prior {
        Some(before) => {
            let position = lemma_track_position(packs, id);
            assert(is_sound_track(packs[position].id, packs[position].track));
            assert(track_refers_to(packs[position].track, before.active.component));
            assert(refers_to(packs, before.active.component));
            lemma_with_track_updates(packs, id, track, position);
            assert forall|other: Seq<char>| #[trigger]
                track_refers_to(track, other) implies track_refers_to(packs[position].track, other)
                || !refers_to(packs, other) by {
            }
            lemma_update_keeps_sound(packs, position, EntryView { id, track });
        },
        None => {
            let position = lemma_with_track_inserts(packs, id, track);
            lemma_insert_keeps_sound(packs, position, EntryView { id, track });
        },
    }
    law_valid_ledger(StateView { packs: with_track(packs, id, track), ..state });
}

} // verus!
