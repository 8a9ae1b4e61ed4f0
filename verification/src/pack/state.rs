//! The ledger of active model packs.

use vstd::prelude::*;
use vstd::string::*;

use crate::pack::records::{BuildInfo, PackTrack, TrackView};
use crate::text;
use crate::text::precedes;

verus! {

/// The format of the ledger.
pub const STATE_FORMAT: u32 = 1;

/// The tracks of one model id.
#[derive(Debug, Clone, PartialEq, Eq)]
pub struct TrackEntry {
    pub id: String,
    pub track: PackTrack,
}

/// The value of a [`TrackEntry`].
pub struct EntryView {
    pub id: Seq<char>,
    pub track: TrackView,
}

impl View for TrackEntry {
    type V = EntryView;

    open spec fn view(&self) -> EntryView {
        EntryView { id: self.id@, track: self.track@ }
    }
}

/// The values of entries.
pub open spec fn entry_views(entries: Seq<TrackEntry>) -> Seq<EntryView> {
    entries.map_values(|entry: TrackEntry| entry@)
}

/// The ledger: the track of each model id, in the order of the ids.
#[derive(Debug, Clone, PartialEq, Eq)]
pub struct PackState {
    pub format: u32,
    pub written_by: String,
    pub packs: Vec<TrackEntry>,
}

/// The value of a [`PackState`].
pub struct StateView {
    pub format: u32,
    pub written_by: Seq<char>,
    pub packs: Seq<EntryView>,
}

impl View for PackState {
    type V = StateView;

    open spec fn view(&self) -> StateView {
        StateView {
            format: self.format,
            written_by: self.written_by@,
            packs: entry_views(self.packs@),
        }
    }
}

/// Whether entries stand in the order of their ids, each id once.
pub open spec fn is_ordered(packs: Seq<EntryView>) -> bool {
    forall|i: int, j: int|
        0 <= i < j < packs.len() ==> precedes((#[trigger] packs[i]).id, (#[trigger] packs[j]).id)
}

/// The track of an id.
pub open spec fn track_of(packs: Seq<EntryView>, id: Seq<char>) -> Option<TrackView>
    decreases packs.len(),
{
    if packs.len() == 0 {
        None
    } else if packs[0].id == id {
        Some(packs[0].track)
    } else {
        track_of(packs.drop_first(), id)
    }
}

/// The entries with one more: it takes the place of the one with its id, or stands where its id
/// belongs.
pub open spec fn with_track(packs: Seq<EntryView>, id: Seq<char>, track: TrackView) -> Seq<EntryView>
    decreases packs.len(),
{
    if packs.len() == 0 || precedes(id, packs[0].id) {
        seq![EntryView { id, track }] + packs
    } else if packs[0].id == id {
        seq![EntryView { id, track }] + packs.drop_first()
    } else {
        seq![packs[0]] + with_track(packs.drop_first(), id, track)
    }
}

/// The entries without the one of an id.
pub open spec fn without_track(packs: Seq<EntryView>, id: Seq<char>) -> Seq<EntryView>
    decreases packs.len(),
{
    if packs.len() == 0 {
        packs
    } else if packs[0].id == id {
        packs.drop_first()
    } else {
        seq![packs[0]] + without_track(packs.drop_first(), id)
    }
}

/// Ordered entries stay so without the first, which comes before all others.
pub proof fn lemma_drop_first_ordered(packs: Seq<EntryView>)
    requires
        packs.len() > 0,
        is_ordered(packs),
    ensures
        is_ordered(packs.drop_first()),
        forall|i: int|
            0 <= i < packs.drop_first().len() ==> precedes(
                packs[0].id,
                (#[trigger] packs.drop_first()[i]).id,
            ),
{
    let rest = packs.drop_first();
    assert forall|i: int, j: int| 0 <= i < j < rest.len() implies precedes(
        (#[trigger] rest[i]).id,
        (#[trigger] rest[j]).id,
    ) by {
        assert(precedes(packs[i + 1].id, packs[j + 1].id));
    }
    assert forall|i: int| 0 <= i < rest.len() implies precedes(
        packs[0].id,
        (#[trigger] rest[i]).id,
    ) by {
        assert(precedes(packs[0].id, packs[i + 1].id));
    }
}

/// In ordered entries an id that comes before the first one has no track.
pub proof fn lemma_absent_before(packs: Seq<EntryView>, id: Seq<char>)
    requires
        is_ordered(packs),
        packs.len() > 0 ==> precedes(id, packs[0].id),
    ensures
        track_of(packs, id) is None,
    decreases packs.len(),
{
    if packs.len() > 0 {
        text::law_order_irreflexive(id);
        lemma_drop_first_ordered(packs);
        if packs.drop_first().len() > 0 {
            text::law_order_transitive(id, packs[0].id, packs.drop_first()[0].id);
        }
        lemma_absent_before(packs.drop_first(), id);
    }
}

/// Entering a track leaves every other entry as it was.
pub proof fn lemma_with_track_entries(packs: Seq<EntryView>, id: Seq<char>, track: TrackView)
    ensures
        forall|i: int|
            0 <= i < with_track(packs, id, track).len() ==> (#[trigger] with_track(
                packs,
                id,
                track,
            )[i]) == (EntryView { id, track }) || packs.contains(with_track(packs, id, track)[i]),
    decreases packs.len(),
{
    let entry = EntryView { id, track };
    let result = with_track(packs, id, track);
    if packs.len() > 0 && !precedes(id, packs[0].id) && packs[0].id != id {
        let rest = packs.drop_first();
        let inner = with_track(rest, id, track);
        lemma_with_track_entries(rest, id, track);
        assert forall|i: int| 0 <= i < result.len() implies (#[trigger] result[i]) == entry
            || packs.contains(result[i]) by {
            if i == 0 {
                assert(packs[0] == result[0]);
            } else {
                assert(result[i] == inner[i - 1]);
                if inner[i - 1] != entry {
                    let k = choose|k: int| 0 <= k < rest.len() && rest[k] == inner[i - 1];
                    assert(packs[k + 1] == result[i]);
                }
            }
        }
    } else {
        assert forall|i: int| 0 <= i < result.len() implies (#[trigger] result[i]) == entry
            || packs.contains(result[i]) by {
            if i > 0 {
                if packs.len() > 0 && packs[0].id == id && !precedes(id, packs[0].id) {
                    assert(packs[i] == result[i]);
                } else {
                    assert(packs[i - 1] == result[i]);
                }
            }
        }
    }
}

proof fn lemma_with_track_members(packs: Seq<EntryView>, id: Seq<char>, track: TrackView)
    ensures
        forall|i: int|
            0 <= i < with_track(packs, id, track).len() ==> (#[trigger] with_track(
                packs,
                id,
                track,
            )[i]).id == id || exists|j: int|
                0 <= j < packs.len() && (#[trigger] packs[j]).id == with_track(
                    packs,
                    id,
                    track,
                )[i].id,
    decreases packs.len(),
{
    let result = with_track(packs, id, track);
    if packs.len() == 0 || precedes(id, packs[0].id) {
        assert forall|i: int| 0 <= i < result.len() implies (#[trigger] result[i]).id == id
            || exists|j: int| 0 <= j < packs.len() && (#[trigger] packs[j]).id == result[i].id by {
            if i > 0 {
                assert(packs[i - 1].id == result[i].id);
            }
        }
    } else if packs[0].id == id {
        assert forall|i: int| 0 <= i < result.len() implies (#[trigger] result[i]).id == id
            || exists|j: int| 0 <= j < packs.len() && (#[trigger] packs[j]).id == result[i].id by {
            if i > 0 {
                assert(packs[i].id == result[i].id);
            }
        }
    } else {
        let rest = packs.drop_first();
        lemma_with_track_members(rest, id, track);
        assert forall|i: int| 0 <= i < result.len() implies (#[trigger] result[i]).id == id
            || exists|j: int| 0 <= j < packs.len() && (#[trigger] packs[j]).id == result[i].id by {
            if i == 0 {
                assert(packs[0].id == result[0].id);
            } else {
                let inner = with_track(rest, id, track);
                assert(result[i] == inner[i - 1]);
                if inner[i - 1].id != id {
                    let j = choose|j: int| 0 <= j < rest.len() && (#[trigger] rest[j]).id
                        == inner[i - 1].id;
                    assert(packs[j + 1].id == result[i].id);
                }
            }
        }
    }
}

/// Entering a track keeps the entries in order, gives the id this track and leaves the tracks of
/// all other ids as they were.
pub proof fn law_with_track(
    packs: Seq<EntryView>,
    id: Seq<char>,
    track: TrackView,
    other: Seq<char>,
)
    requires
        is_ordered(packs),
    ensures
        is_ordered(with_track(packs, id, track)),
        track_of(with_track(packs, id, track), id) == Some(track),
        other != id ==> track_of(with_track(packs, id, track), other) == track_of(packs, other),
    decreases packs.len(),
{
    let result = with_track(packs, id, track);
    if packs.len() == 0 || precedes(id, packs[0].id) {
        assert(result.drop_first() =~= packs);
        assert forall|i: int, j: int| 0 <= i < j < result.len() implies precedes(
            (#[trigger] result[i]).id,
            (#[trigger] result[j]).id,
        ) by {
            assert(result[j] == packs[j - 1]);
            if i == 0 {
                if j > 1 {
                    assert(precedes(packs[0].id, packs[j - 1].id));
                    text::law_order_transitive(id, packs[0].id, packs[j - 1].id);
                }
            } else {
                assert(result[i] == packs[i - 1]);
            }
        }
    } else {
        let rest = packs.drop_first();
        lemma_drop_first_ordered(packs);
        if packs[0].id == id {
            assert(result.drop_first() =~= rest);
            assert forall|i: int, j: int| 0 <= i < j < result.len() implies precedes(
                (#[trigger] result[i]).id,
                (#[trigger] result[j]).id,
            ) by {
                assert(result[i].id == packs[i].id);
                assert(result[j].id == packs[j].id);
            }
        } else {
            text::law_order_total(id, packs[0].id);
            let inner = with_track(rest, id, track);
            law_with_track(rest, id, track, other);
            lemma_with_track_members(rest, id, track);
            assert(result.drop_first() =~= inner);
            assert forall|i: int, j: int| 0 <= i < j < result.len() implies precedes(
                (#[trigger] result[i]).id,
                (#[trigger] result[j]).id,
            ) by {
                assert(result[j] == inner[j - 1]);
                if i == 0 {
                    if inner[j - 1].id != id {
                        let k = choose|k: int| 0 <= k < rest.len() && (#[trigger] rest[k]).id
                            == inner[j - 1].id;
                        assert(precedes(packs[0].id, rest[k].id));
                    }
                } else {
                    assert(result[i] == inner[i - 1]);
                }
            }
        }
    }
}

/// Removing a track keeps the entries in order, leaves the id without a track and the tracks of all
/// other ids as they were.
pub proof fn law_without_track(packs: Seq<EntryView>, id: Seq<char>, other: Seq<char>)
    requires
        is_ordered(packs),
    ensures
        is_ordered(without_track(packs, id)),
        track_of(without_track(packs, id), id) is None,
        other != id ==> track_of(without_track(packs, id), other) == track_of(packs, other),
        forall|i: int|
            0 <= i < without_track(packs, id).len() ==> exists|j: int|
                0 <= j < packs.len() && (#[trigger] packs[j]).id == (#[trigger] without_track(
                    packs,
                    id,
                )[i]).id,
    decreases packs.len(),
{
    if packs.len() > 0 {
        let result = without_track(packs, id);
        let rest = packs.drop_first();
        lemma_drop_first_ordered(packs);
        if packs[0].id == id {
            if rest.len() > 0 {
                assert(precedes(id, rest[0].id));
            }
            lemma_absent_before(rest, id);
            assert forall|i: int| 0 <= i < result.len() implies exists|j: int|
                0 <= j < packs.len() && (#[trigger] packs[j]).id == (#[trigger] result[i]).id by {
                assert(packs[i + 1].id == result[i].id);
            }
        } else {
            let inner = without_track(rest, id);
            law_without_track(rest, id, other);
            assert(result.drop_first() =~= inner);
            assert forall|i: int, j: int| 0 <= i < j < result.len() implies precedes(
                (#[trigger] result[i]).id,
                (#[trigger] result[j]).id,
            ) by {
                assert(result[j] == inner[j - 1]);
                if i == 0 {
                    let k = choose|k: int| 0 <= k < rest.len() && (#[trigger] rest[k]).id
                        == inner[j - 1].id;
                    assert(precedes(packs[0].id, rest[k].id));
                } else {
                    assert(result[i] == inner[i - 1]);
                }
            }
            assert forall|i: int| 0 <= i < result.len() implies exists|j: int|
                0 <= j < packs.len() && (#[trigger] packs[j]).id == (#[trigger] result[i]).id by {
                if i == 0 {
                    assert(packs[0].id == result[0].id);
                } else {
                    let k = choose|k: int| 0 <= k < rest.len() && (#[trigger] rest[k]).id
                        == inner[i - 1].id;
                    assert(packs[k + 1].id == result[i].id);
                }
            }
        }
    }
}

impl PackState {
    /// The ledger of a program that has nothing installed.
    pub fn empty(build: &BuildInfo) -> (state: PackState)
        ensures
            state@ == empty_state(*build),
            is_ordered(state@.packs),
    {
        let state = PackState {
            format: STATE_FORMAT,
            written_by: build.version.clone(),
            packs: Vec::new(),
        };
        assert(state@.packs =~= Seq::<EntryView>::empty());
        state
    }

    /// The track of an id.
    pub fn track(&self, id: &str) -> (track: Option<&PackTrack>)
        ensures
            match (track, track_of(self@.packs, id@)) {
                (Some(track), Some(expected)) => track@ == expected,
                (None, None) => true,
                _ => false,
            },
    {
        let ghost views = self@.packs;
        let mut position: usize = 0;
        assert(views.skip(0) =~= views);
        while position < self.packs.len()
            invariant
                views == entry_views(self.packs@),
                position <= self.packs@.len(),
                track_of(views, id@) == track_of(views.skip(position as int), id@),
            decreases self.packs@.len() - position,
        {
            let entry = &self.packs[position];
            proof {
                assert(views.skip(position as int)[0] == entry@);
                assert(views.skip(position as int).drop_first() =~= views.skip(position + 1));
            }
            if text::same(entry.id.as_str(), id) {
                return Some(&entry.track);
            }
            position = position + 1;
        }
        None
    }

    /// Enters the track of an id.
    pub fn insert(&mut self, id: String, track: PackTrack)
        ensures
            final(self)@ == (StateView {
                packs: with_track(old(self)@.packs, id@, track@),
                ..old(self)@
            }),
            is_ordered(old(self)@.packs) ==> is_ordered(final(self)@.packs),
    {
        proof {
            if is_ordered(self@.packs) {
                law_with_track(self@.packs, id@, track@, id@);
            }
        }
        let ghost views = self@.packs;
        let ghost wanted = with_track(views, id@, track@);
        let mut position: usize = 0;
        assert(views.skip(0) =~= views);
        assert(views.take(0) + with_track(views.skip(0), id@, track@) =~= wanted);
        while position < self.packs.len()
            invariant
                views == entry_views(self.packs@),
                self@.format == old(self)@.format,
                self@.written_by == old(self)@.written_by,
                views == old(self)@.packs,
                wanted == with_track(views, id@, track@),
                position <= self.packs@.len(),
                views.take(position as int) + with_track(
                    views.skip(position as int),
                    id@,
                    track@,
                ) == wanted,
            ensures
                position == views.len() || precedes(id@, views[position as int].id),
            decreases self.packs@.len() - position,
        {
            let ghost rest = views.skip(position as int);
            proof {
                assert(rest[0] == self.packs@[position as int]@);
                assert(rest.drop_first() =~= views.skip(position + 1));
            }
            let entry = &self.packs[position];
            if text::before(id.as_str(), entry.id.as_str()) {
                break ;
            }
            if text::same(entry.id.as_str(), id.as_str()) {
                let added = TrackEntry { id, track };
                self.packs.set(position, added);
                proof {
                    assert(entry_views(self.packs@) =~= views.update(position as int, added@));
                    assert(views.update(position as int, added@) =~= wanted);
                }
                return ;
            }
            proof {
                let tail = with_track(views.skip(position + 1), id@, track@);
                assert(views.take(position as int) + (seq![rest[0]] + tail) =~= views.take(
                    position + 1,
                ) + tail);
            }
            position = position + 1;
        }
        let added = TrackEntry { id, track };
        assert(position < views.len() ==> views.skip(position as int)[0]
            == views[position as int]);
        self.packs.insert(position, added);
        proof {
            assert(entry_views(self.packs@) =~= views.insert(position as int, added@));
            assert(views.insert(position as int, added@) =~= views.take(position as int) + (
            seq![added@] + views.skip(position as int)));
        }
    }

    /// Removes the track of an id.
    pub fn remove(&mut self, id: &str)
        ensures
            final(self)@ == (StateView {
                packs: without_track(old(self)@.packs, id@),
                ..old(self)@
            }),
            is_ordered(old(self)@.packs) ==> is_ordered(final(self)@.packs),
    {
        proof {
            if is_ordered(self@.packs) {
                law_without_track(self@.packs, id@, id@);
            }
        }
        let ghost views = self@.packs;
        let ghost wanted = without_track(views, id@);
        let mut position: usize = 0;
        assert(views.skip(0) =~= views);
        assert(views.take(0) + without_track(views.skip(0), id@) =~= wanted);
        while position < self.packs.len()
            invariant
                views == entry_views(self.packs@),
                *self == *old(self),
                views == old(self)@.packs,
                wanted == without_track(views, id@),
                position <= self.packs@.len(),
                views.take(position as int) + without_track(views.skip(position as int), id@)
                    == wanted,
            decreases self.packs@.len() - position,
        {
            let ghost rest = views.skip(position as int);
            proof {
                assert(rest[0] == self.packs@[position as int]@);
                assert(rest.drop_first() =~= views.skip(position + 1));
            }
            if text::same(self.packs[position].id.as_str(), id) {
                let _removed = self.packs.remove(position);
                proof {
                    assert(entry_views(self.packs@) =~= views.remove(position as int));
                    assert(views.remove(position as int) =~= wanted);
                }
                return ;
            }
            proof {
                let tail = without_track(views.skip(position + 1), id@);
                assert(views.take(position as int) + (seq![rest[0]] + tail) =~= views.take(
                    position + 1,
                ) + tail);
            }
            position = position + 1;
        }
        assert(views.take(position as int) =~= views);
        assert(without_track(views.skip(position as int), id@) =~= Seq::<EntryView>::empty());
        assert(wanted =~= views);
    }

    /// The ledger that entries in any order make up; of entries with one id the last counts.
    pub fn from_entries(format: u32, written_by: String, entries: Vec<TrackEntry>) -> (state:
        PackState)
        ensures
            state@ == (StateView {
                format,
                written_by: written_by@,
                packs: collected_tracks(entry_views(entries@)),
            }),
            is_ordered(state@.packs),
    {
        let mut state = PackState { format, written_by, packs: Vec::new() };
        let ghost views = entry_views(entries@);
        let mut position: usize = 0;
        assert(state@.packs =~= Seq::<EntryView>::empty());
        assert(views.take(0) =~= Seq::<EntryView>::empty());
        while position < entries.len()
            invariant
                views == entry_views(entries@),
                position <= entries@.len(),
                state@.format == format,
                state@.written_by == written_by@,
                state@.packs == collected_tracks(views.take(position as int)),
                is_ordered(state@.packs),
            decreases entries@.len() - position,
        {
            let entry = &entries[position];
            proof {
                let next = views.take(position + 1);
                assert(next.drop_last() =~= views.take(position as int));
                assert(next.last() == entry@);
                law_with_track(state@.packs, entry@.id, entry@.track, entry@.id);
            }
            state.insert(entry.id.clone(), entry.track.copy());
            position = position + 1;
        }
        assert(views.take(position as int) =~= views);
        state
    }

    /// Copies a ledger.
    pub fn copy(&self) -> (copy: PackState)
        ensures
            copy@ == self@,
    {
        let mut packs: Vec<TrackEntry> = Vec::new();
        let mut position: usize = 0;
        assert(entry_views(packs@) =~= self@.packs.take(0));
        while position < self.packs.len()
            invariant
                position <= self.packs@.len(),
                entry_views(packs@) == self@.packs.take(position as int),
            decreases self.packs@.len() - position,
        {
            let entry = &self.packs[position];
            let ghost before = packs@;
            packs.push(TrackEntry { id: entry.id.clone(), track: entry.track.copy() });
            proof {
                assert(packs@.last()@ == entry@);
                assert(entry_views(packs@) =~= entry_views(before).push(entry@));
                assert(entry_views(packs@) =~= self@.packs.take(position + 1));
            }
            position = position + 1;
        }
        assert(self@.packs.take(position as int) =~= self@.packs);
        PackState { format: self.format, written_by: self.written_by.clone(), packs }
    }

    /// Whether two ledgers say the same of every pack, whoever wrote them.
    pub fn same_ledger(&self, other: &PackState) -> (same: bool)
        ensures
            same == (self@.format == other@.format && self@.packs == other@.packs),
    {
        if self.format != other.format {
            return false;
        }
        if self.packs.len() != other.packs.len() {
            assert(self@.packs.len() != other@.packs.len());
            return false;
        }
        let mut position: usize = 0;
        while position < self.packs.len()
            invariant
                self.packs@.len() == other.packs@.len(),
                position <= self.packs@.len(),
                forall|i: int| 0 <= i < position ==> self.packs@[i]@ == other.packs@[i]@,
            decreases self.packs@.len() - position,
        {
            let own = &self.packs[position];
            let others = &other.packs[position];
            if !(text::same(own.id.as_str(), others.id.as_str()) && own.track.same(&others.track)) {
                proof {
                    assert(self@.packs[position as int] == own@);
                    assert(other@.packs[position as int] == others@);
                }
                return false;
            }
            position = position + 1;
        }
        assert(self@.packs =~= other@.packs);
        true
    }
}

/// The ledger of a program that has nothing installed.
pub open spec fn empty_state(build: BuildInfo) -> StateView {
    StateView { format: STATE_FORMAT, written_by: build.version@, packs: Seq::empty() }
}

/// The tracks that entries make up, entered one after the other.
pub open spec fn collected_tracks(entries: Seq<EntryView>) -> Seq<EntryView>
    decreases entries.len(),
{
    if entries.len() == 0 {
        Seq::empty()
    } else {
        with_track(
            collected_tracks(entries.drop_last()),
            entries.last().id,
            entries.last().track,
        )
    }
}

} // verus!
