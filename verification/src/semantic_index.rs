//! A loaded index, with its entries grouped by key.

use vstd::hash_map::StringHashMap;
use vstd::prelude::*;
use vstd::string::*;
use vstd::utf8::*;

use crate::failure::{caused_failure, plain_failure, Failure, FailureView};
use crate::index::{
    after_records, index_body, lemma_records_step, read_index_header, requested_room, room_request,
    short_field, take_header, take_record, take_records, HeaderView, IndexErrorView, IndexReader,
    RecordView,
};
use crate::index_writer::{encoded_index, law_written_index_reads_back};
use crate::memory::{reserve_exact, room_view, Room};
use crate::names::text_views;

verus! {

/// The entries of an index that have one key.
#[derive(Debug, Clone)]
pub struct Group {
    pub key: String,
    pub items: Vec<usize>,
}

/// The value of a [`Group`].
pub struct GroupView {
    pub key: Seq<char>,
    pub items: Seq<usize>,
}

impl View for Group {
    type V = GroupView;

    open spec fn view(&self) -> GroupView {
        GroupView { key: self.key@, items: self.items@ }
    }
}

/// The values of groups.
pub open spec fn group_views(groups: Seq<Group>) -> Seq<GroupView> {
    groups.map_values(|group: Group| group@)
}

/// Whether a group holds entries of its key, in the order of the index.
pub open spec fn is_group(keys: Seq<Seq<char>>, group: GroupView) -> bool {
    &&& group.items.len() > 0
    &&& forall|k: int|
        0 <= k < group.items.len() ==> (#[trigger] group.items[k]) < keys.len()
            && keys[group.items[k] as int] == group.key
    &&& forall|k: int, l: int|
        0 <= k < l < group.items.len() ==> (#[trigger] group.items[k]) < (#[trigger] group.items[l])
}

/// Whether an entry is in some group.
pub open spec fn is_grouped(groups: Seq<GroupView>, item: usize) -> bool {
    exists|g: int| 0 <= g < groups.len() && (#[trigger] groups[g]).items.contains(item)
}

/// Whether groups split the entries by their keys, in the order in which the keys first appear.
pub open spec fn is_grouping(keys: Seq<Seq<char>>, groups: Seq<GroupView>) -> bool {
    &&& forall|g: int| 0 <= g < groups.len() ==> is_group(keys, #[trigger] groups[g])
    &&& forall|i: usize| i < keys.len() ==> #[trigger] is_grouped(groups, i)
    &&& forall|g: int, h: int|
        0 <= g < h < groups.len() ==> (#[trigger] groups[g]).key != (#[trigger] groups[h]).key
            && groups[g].items[0] < groups[h].items[0]
}

/// Whether positions tell the group of each key.
spec fn are_positions(positions: Map<Seq<char>, usize>, groups: Seq<GroupView>) -> bool {
    &&& forall|key: Seq<char>| #[trigger]
        positions.contains_key(key) ==> positions[key] < groups.len()
            && groups[positions[key] as int].key == key
    &&& forall|g: int|
        0 <= g < groups.len() ==> positions.contains_key((#[trigger] groups[g]).key)
}

proof fn lemma_grouping_grows(keys: Seq<Seq<char>>, end: int, groups: Seq<GroupView>, g: int)
    requires
        0 <= end < keys.len() <= usize::MAX,
        is_grouping(keys.take(end), groups),
        0 <= g < groups.len(),
        groups[g].key == keys[end],
    ensures
        is_grouping(
            keys.take(end + 1),
            groups.update(
                g,
                GroupView { key: groups[g].key, items: groups[g].items.push(end as usize) },
            ),
        ),
{
    let longer = GroupView { key: groups[g].key, items: groups[g].items.push(end as usize) };
    let grown = groups.update(g, longer);
    let before = keys.take(end);
    let after = keys.take(end + 1);
    assert forall|h: int| 0 <= h < grown.len() implies is_group(after, #[trigger] grown[h]) by {
        assert(is_group(before, groups[h]));
        assert forall|k: int| 0 <= k < grown[h].items.len() implies (
        #[trigger] grown[h].items[k]) < after.len() && after[grown[h].items[k] as int]
            == grown[h].key by {
            if k < groups[h].items.len() {
                assert(grown[h].items[k] == groups[h].items[k]);
                assert(before[groups[h].items[k] as int] == groups[h].key);
            }
        }
        assert forall|k: int, l: int| 0 <= k < l < grown[h].items.len() implies (
        #[trigger] grown[h].items[k]) < (#[trigger] grown[h].items[l]) by {
            assert(grown[h].items[k] == groups[h].items[k]);
            if l < groups[h].items.len() {
                assert(grown[h].items[l] == groups[h].items[l]);
            }
        }
    }
    assert forall|i: usize| i < after.len() implies #[trigger] is_grouped(grown, i) by {
        if i < end {
            assert(is_grouped(groups, i));
            let h = choose|h: int| 0 <= h < groups.len() && (#[trigger] groups[h]).items.contains(i);
            let k = choose|k: int| 0 <= k < groups[h].items.len() && groups[h].items[k] == i;
            assert(grown[h].items[k] == i);
            assert(grown[h].items.contains(i));
        } else {
            assert(grown[g].items.last() == i);
            assert(grown[g].items.contains(i));
        }
    }
    assert forall|a: int, b: int| 0 <= a < b < grown.len() implies (#[trigger] grown[a]).key != (
    #[trigger] grown[b]).key && grown[a].items[0] < grown[b].items[0] by {
        assert(groups[a].key != groups[b].key);
        assert(is_group(before, groups[a]) && is_group(before, groups[b]));
    }
}

proof fn lemma_grouping_starts(keys: Seq<Seq<char>>, end: int, groups: Seq<GroupView>)
    requires
        0 <= end < keys.len() <= usize::MAX,
        is_grouping(keys.take(end), groups),
        forall|g: int| 0 <= g < groups.len() ==> (#[trigger] groups[g]).key != keys[end],
    ensures
        is_grouping(
            keys.take(end + 1),
            groups.push(GroupView { key: keys[end], items: seq![end as usize] }),
        ),
{
    let fresh = GroupView { key: keys[end], items: seq![end as usize] };
    let grown = groups.push(fresh);
    let before = keys.take(end);
    let after = keys.take(end + 1);
    assert forall|h: int| 0 <= h < grown.len() implies is_group(after, #[trigger] grown[h]) by {
        if h < groups.len() {
            assert(is_group(before, groups[h]));
            assert forall|k: int| 0 <= k < grown[h].items.len() implies (
            #[trigger] grown[h].items[k]) < after.len() && after[grown[h].items[k] as int]
                == grown[h].key by {
                assert(before[groups[h].items[k] as int] == groups[h].key);
            }
        }
    }
    assert forall|i: usize| i < after.len() implies #[trigger] is_grouped(grown, i) by {
        if i < end {
            assert(is_grouped(groups, i));
            let h = choose|h: int| 0 <= h < groups.len() && (#[trigger] groups[h]).items.contains(i);
            assert(grown[h].items.contains(i));
        } else {
            assert(grown[groups.len() as int].items[0] == i);
            assert(grown[groups.len() as int].items.contains(i));
        }
    }
    assert forall|a: int, b: int| 0 <= a < b < grown.len() implies (#[trigger] grown[a]).key != (
    #[trigger] grown[b]).key && grown[a].items[0] < grown[b].items[0] by {
        assert(is_group(before, groups[a]));
        assert(groups[a].items[0] < before.len());
    }
}

/// Groups the entries of an index by their keys.
pub fn group_keys(keys: &Vec<String>) -> (groups: Vec<Group>)
    ensures
        is_grouping(text_views(keys@), group_views(groups@)),
{
    let ghost views = text_views(keys@);
    let total: usize = keys.len();
    let mut positions: StringHashMap<usize> = StringHashMap::with_capacity(keys.len());
    let mut groups: Vec<Group> = Vec::new();
    let mut item: usize = 0;
    assert(group_views(groups@) =~= Seq::<GroupView>::empty());
    while item < keys.len()
        invariant
            views == text_views(keys@),
            item <= keys@.len() == total,
            is_grouping(views.take(item as int), group_views(groups@)),
            are_positions(positions@, group_views(groups@)),
        decreases keys@.len() - item,
    {
        let key = &keys[item];
        let ghost before = group_views(groups@);
        assert(views[item as int] == key@);
        let found: Option<usize> = match positions.get(key.as_str()) {
            Some(position) => Some(*position),
            None => None,
        };
        match found {
            Some(position) => {
                assert(before[position as int] == groups@[position as int]@);
                proof {
                    lemma_grouping_grows(views, item as int, before, position as int);
                }
                groups[position].items.push(item);
                proof {
                    let grown = before.update(
                        position as int,
                        GroupView {
                            key: before[position as int].key,
                            items: before[position as int].items.push(item),
                        },
                    );
                    assert(group_views(groups@) =~= grown);
                    assert forall|g: int| 0 <= g < grown.len() implies positions@.contains_key(
                        (#[trigger] grown[g]).key,
                    ) by {
                        assert(positions@.contains_key(before[g].key));
                    }
                }
            },
            None => {
                proof {
                    assert forall|g: int| 0 <= g < before.len() implies (#[trigger] before[g]).key
                        != views[item as int] by {
                        assert(positions@.contains_key(before[g].key));
                    }
                    lemma_grouping_starts(views, item as int, before);
                }
                positions.insert(key.clone(), groups.len());
                let mut items: Vec<usize> = Vec::new();
                items.push(item);
                groups.push(Group { key: key.clone(), items });
                proof {
                    let grown = before.push(
                        GroupView { key: views[item as int], items: seq![item] },
                    );
                    assert(items@ =~= seq![item]);
                    assert(group_views(groups@) =~= grown);
                    assert forall|g: int| 0 <= g < grown.len() implies positions@.contains_key(
                        (#[trigger] grown[g]).key,
                    ) by {
                        if g < before.len() {
                            assert(positions@.contains_key(before[g].key));
                        }
                    }
                }
            },
        }
        item = item + 1;
    }
    assert(views.take(item as int) =~= views);
    groups
}

/// Every entry is in exactly one group: the one of its key.
pub proof fn law_groups_partition(keys: Seq<Seq<char>>, groups: Seq<GroupView>, item: usize)
    requires
        is_grouping(keys, groups),
        item < keys.len(),
    ensures
        is_grouped(groups, item),
        forall|g: int|
            0 <= g < groups.len() ==> ((#[trigger] groups[g]).items.contains(item) <==> groups[g].key
                == keys[item as int]),
        forall|g: int, h: int|
            0 <= g < groups.len() && 0 <= h < groups.len() && (
            #[trigger] groups[g]).items.contains(item) && (#[trigger] groups[h]).items.contains(item)
                ==> g == h,
{
    assert(is_grouped(groups, item));
    let own = choose|g: int| 0 <= g < groups.len() && (#[trigger] groups[g]).items.contains(item);
    assert forall|g: int| 0 <= g < groups.len() implies ((#[trigger] groups[g]).items.contains(item)
        <==> groups[g].key == keys[item as int]) by {
        assert(is_group(keys, groups[g]));
        assert(is_group(keys, groups[own]));
        let k = choose|k: int| 0 <= k < groups[own].items.len() && groups[own].items[k] == item;
        assert(keys[groups[own].items[k] as int] == groups[own].key);
        if groups[g].items.contains(item) {
            let l = choose|l: int| 0 <= l < groups[g].items.len() && groups[g].items[l] == item;
            assert(keys[groups[g].items[l] as int] == groups[g].key);
        } else if groups[g].key == keys[item as int] {
            if g < own {
                assert(groups[g].key != groups[own].key);
            } else if own < g {
                assert(groups[own].key != groups[g].key);
            }
        }
    }
    assert forall|g: int, h: int|
        0 <= g < groups.len() && 0 <= h < groups.len() && (
        #[trigger] groups[g]).items.contains(item) && (#[trigger] groups[h]).items.contains(
            item,
        ) implies g == h by {
        if g < h {
            assert(groups[g].key != groups[h].key);
        } else if h < g {
            assert(groups[h].key != groups[g].key);
        }
    }
}

/// An index in memory. Embedding values are bit patterns, those of one entry after the other.
#[derive(Debug, Clone)]
pub struct SemanticIndex {
    pub model: String,
    pub keys: Vec<String>,
    pub fingerprints: Vec<u64>,
    pub groups: Vec<Group>,
    pub embeddings: Vec<u32>,
    pub dimensions: usize,
}

/// The embeddings of entries, one after the other.
pub open spec fn joined_embeddings(records: Seq<RecordView>) -> Seq<u32>
    decreases records.len(),
{
    if records.len() == 0 {
        Seq::empty()
    } else {
        joined_embeddings(records.drop_last()) + records.last().embedding
    }
}

/// The keys of entries.
pub open spec fn record_keys(records: Seq<RecordView>) -> Seq<Seq<char>> {
    records.map_values(|record: RecordView| record.key)
}

/// The fingerprints of entries.
pub open spec fn record_fingerprints(records: Seq<RecordView>) -> Seq<u64> {
    records.map_values(|record: RecordView| record.fingerprint)
}

impl SemanticIndex {
    /// Whether this is an index with the given header and entries.
    pub open spec fn holds(&self, header: HeaderView, records: Seq<RecordView>) -> bool {
        &&& self.model@ == header.model
        &&& self.dimensions == header.dimensions
        &&& text_views(self.keys@) == record_keys(records)
        &&& self.fingerprints@ == record_fingerprints(records)
        &&& self.embeddings@ == joined_embeddings(records)
        &&& is_grouping(text_views(self.keys@), group_views(self.groups@))
    }

    /// Whether every key has a fingerprint and an embedding.
    pub open spec fn is_complete(&self) -> bool {
        &&& self.fingerprints@.len() == self.keys@.len()
        &&& self.embeddings@.len() == self.keys@.len() * self.dimensions
    }
}

/// The embeddings of entries take as much room as there are entries, each of the index's size.
proof fn lemma_embeddings_len(records: Seq<RecordView>, dimensions: nat)
    requires
        forall|i: int|
            0 <= i < records.len() ==> (#[trigger] records[i]).embedding.len() == dimensions,
    ensures
        joined_embeddings(records).len() == records.len() * dimensions,
    decreases records.len(),
{
    if records.len() > 0 {
        assert forall|i: int| 0 <= i < records.drop_last().len() implies (
        #[trigger] records.drop_last()[i]).embedding.len() == dimensions by {
            assert(records[i].embedding.len() == dimensions);
        }
        lemma_embeddings_len(records.drop_last(), dimensions);
        assert(records.last() == records[records.len() - 1]);
        assert(records.len() * dimensions == (records.len() - 1) * dimensions + dimensions)
            by (nonlinear_arith);
    }
}

/// Whether memory was granted for the three parts of an index.
#[derive(Debug)]
pub struct IndexRoom {
    pub keys: Result<(), String>,
    pub fingerprints: Result<(), String>,
    pub embeddings: Result<(), String>,
}

/// The value of an [`IndexRoom`].
pub struct IndexRoomView {
    pub keys: Result<(), Seq<char>>,
    pub fingerprints: Result<(), Seq<char>>,
    pub embeddings: Result<(), Seq<char>>,
}

impl View for IndexRoom {
    type V = IndexRoomView;

    open spec fn view(&self) -> IndexRoomView {
        IndexRoomView {
            keys: room_view(self.keys),
            fingerprints: room_view(self.fingerprints),
            embeddings: room_view(self.embeddings),
        }
    }
}

/// Why there is no room for an index.
pub open spec fn room_fault(room: IndexRoomView) -> Option<FailureView> {
    match (room.keys, room.fingerprints, room.embeddings) {
        (Err(reason), _, _) => Some(
            caused_failure("semantic index entry count is too large"@, reason),
        ),
        (_, Err(reason), _) => Some(
            caused_failure("semantic index entry count is too large"@, reason),
        ),
        (_, _, Err(reason)) => Some(
            caused_failure("semantic index dimensions are too large"@, reason),
        ),
        _ => None,
    }
}

/// Why an index with a header cannot be held in memory.
pub open spec fn size_fault(header: HeaderView) -> Option<FailureView> {
    if header.count > usize::MAX {
        Some(
            caused_failure(
                "semantic index entry count is too large"@,
                "out of range integral type conversion attempted"@,
            ),
        )
    } else if header.count == 0 {
        Some(plain_failure("semantic index is empty"@))
    } else if header.count * header.dimensions > usize::MAX {
        Some(plain_failure("semantic index dimensions overflow"@))
    } else {
        None
    }
}

/// What an index holds, or why it cannot be loaded, given whether there is room for it.
pub open spec fn loaded_index(bytes: Seq<u8>, room: IndexRoomView) -> Result<
    (HeaderView, Seq<RecordView>),
    FailureView,
> {
    match take_header(bytes) {
        (Err(error), _) => Err(plain_failure(error.message)),
        (Ok(header), body) => match size_fault(header) {
            Some(fault) => Err(fault),
            None => match room_fault(room) {
                Some(fault) => Err(fault),
                None => match index_body(header, body, short_field()) {
                    Ok(contents) => Ok(contents),
                    Err(error) => Err(plain_failure(error.message)),
                },
            },
        },
    }
}

/// Whether the outcome of loading an index is the expected one.
pub open spec fn is_loaded(
    index: Result<SemanticIndex, Failure>,
    expected: Result<(HeaderView, Seq<RecordView>), FailureView>,
) -> bool {
    match (index, expected) {
        (Ok(index), Ok((header, records))) => index.holds(header, records) && index.is_complete(),
        (Err(failure), Err(expected)) => failure@ == expected,
        _ => false,
    }
}

/// What came of the three requests for memory of an index.
pub open spec fn rooms_view(keys: Room, fingerprints: Room, embeddings: Room) -> IndexRoomView {
    IndexRoomView {
        keys: keys.granted(),
        fingerprints: fingerprints.granted(),
        embeddings: embeddings.granted(),
    }
}

/// All memory is granted.
pub open spec fn granted_rooms() -> IndexRoomView {
    IndexRoomView { keys: Ok(()), fingerprints: Ok(()), embeddings: Ok(()) }
}

fn check_size(count: u64, dimensions: u32) -> (values: Result<usize, Failure>)
    ensures
        forall|header: HeaderView|
            header.count == count && header.dimensions == dimensions ==> match (
                values,
                #[trigger] size_fault(header),
            ) {
                (Ok(values), None) => values == count * dimensions && 0 < count <= usize::MAX,
                (Err(failure), Some(fault)) => failure@ == fault,
                _ => false,
            },
{
    if count > usize::MAX as u64 {
        return Err(
            Failure::caused(
                "semantic index entry count is too large",
                "out of range integral type conversion attempted",
            ),
        );
    }
    if count == 0 {
        return Err(Failure::plain("semantic index is empty"));
    }
    match (count as usize).checked_mul(dimensions as usize) {
        Some(values) => Ok(values),
        None => Err(Failure::plain("semantic index dimensions overflow")),
    }
}

fn check_room(room: &IndexRoom) -> (result: Result<(), Failure>)
    ensures
        match (result, room_fault(room@)) {
            (Ok(_), None) => true,
            (Err(failure), Some(fault)) => failure@ == fault,
            _ => false,
        },
{
    if let Err(reason) = &room.keys {
        return Err(
            Failure::caused("semantic index entry count is too large", reason.as_str()),
        );
    }
    if let Err(reason) = &room.fingerprints {
        return Err(
            Failure::caused("semantic index entry count is too large", reason.as_str()),
        );
    }
    if let Err(reason) = &room.embeddings {
        return Err(
            Failure::caused("semantic index dimensions are too large", reason.as_str()),
        );
    }
    Ok(())
}

fn fill_index(
    bytes: &[u8],
    room: &IndexRoom,
    keys: Vec<String>,
    fingerprints: Vec<u64>,
    embeddings: Vec<u32>,
) -> (index: Result<SemanticIndex, Failure>)
    requires
        keys@.len() == 0,
        fingerprints@.len() == 0,
        embeddings@.len() == 0,
    ensures
        is_loaded(index, loaded_index(bytes@, room@)),
{
    let mut reader = match IndexReader::new(bytes) {
        Ok(reader) => reader,
        Err(error) => return Err(Failure::plain(error.message.as_str())),
    };
    let count: u64 = reader.header().count;
    let dimensions: u32 = reader.header().dimensions;
    let ghost start = reader@;
    if let Err(failure) = check_size(count, dimensions) {
        assert(size_fault(start.header) is Some);
        return Err(failure);
    }
    assert(size_fault(start.header) is None);
    if let Err(failure) = check_room(room) {
        return Err(failure);
    }
    let mut keys = keys;
    let mut fingerprints = fingerprints;
    let mut embeddings = embeddings;
    let ghost all = take_records(start.rest, dimensions as nat, count as nat, short_field());
    let ghost mut seen: Seq<RecordView> = Seq::empty();
    proof {
        match all.0 {
            Ok(records) => {
                assert(seen + records =~= records);
            },
            _ => {},
        }
        assert(text_views(keys@) =~= record_keys(seen));
        assert(fingerprints@ =~= record_fingerprints(seen));
        assert(embeddings@ =~= joined_embeddings(seen));
    }
    let mut left: u64 = count;
    while left > 0
        invariant
            reader@.header == start.header,
            reader@.remaining == left,
            start.header.dimensions == dimensions,
            start.header.count == count,
            all == take_records(start.rest, dimensions as nat, count as nat, short_field()),
            all == after_records(
                seen,
                take_records(reader@.rest, dimensions as nat, left as nat, short_field()),
            ),
            text_views(keys@) == record_keys(seen),
            fingerprints@ == record_fingerprints(seen),
            embeddings@ == joined_embeddings(seen),
            forall|i: int|
                0 <= i < seen.len() ==> (#[trigger] seen[i]).embedding.len() == dimensions,
            take_header(bytes@) == (Ok::<HeaderView, IndexErrorView>(start.header), start.rest),
            size_fault(start.header) is None,
            room_fault(room@) is None,
        decreases left,
    {
        proof {
            lemma_records_step(
                seen,
                reader@.rest,
                dimensions as nat,
                left as nat,
                short_field(),
            );
        }
        let ghost record = take_record(reader@.rest, dimensions as nat, short_field()).0;
        match reader.read_entry_with_room(&mut embeddings, Ok(())) {
            Ok(entry) => {
                let ghost earlier = keys@;
                keys.push(entry.key);
                fingerprints.push(entry.fingerprint);
                proof {
                    let joined = seen.push(record->Ok_0);
                    assert(keys@.last()@ == record->Ok_0.key);
                    assert(text_views(keys@) =~= text_views(earlier).push(record->Ok_0.key));
                    assert(record_keys(joined) =~= record_keys(seen).push(record->Ok_0.key));
                    assert(joined.drop_last() =~= seen);
                    assert(text_views(keys@) =~= record_keys(joined));
                    assert(fingerprints@ =~= record_fingerprints(joined));
                    seen = joined;
                }
            },
            Err(error) => return Err(Failure::plain(error.message.as_str())),
        }
        left = left - 1;
    }
    assert(seen + Seq::<RecordView>::empty() =~= seen);
    proof {
        lemma_embeddings_len(seen, dimensions as nat);
        assert(record_keys(seen).len() == text_views(keys@).len());
    }
    match reader.finish() {
        Ok(header) => {
            let groups = group_keys(&keys);
            Ok(
                SemanticIndex {
                    model: header.model,
                    keys,
                    fingerprints,
                    groups,
                    embeddings,
                    dimensions: dimensions as usize,
                },
            )
        },
        Err(error) => Err(Failure::plain(error.message.as_str())),
    }
}

impl SemanticIndex {
    /// Loads an index, once it is known whether there is room for it.
    pub fn load_with_room(bytes: &[u8], room: &IndexRoom) -> (index: Result<Self, Failure>)
        ensures
            is_loaded(index, loaded_index(bytes@, room@)),
    {
        fill_index(bytes, room, Vec::new(), Vec::new(), Vec::new())
    }

    /// Loads an index, where memory for it is granted: as much is asked for as its entries and their
    /// embeddings take.
    pub fn load(bytes: &[u8]) -> (index: Result<Self, Failure>)
        ensures
            match take_header(bytes@).0 {
                Ok(header) => if size_fault(header) is None {
                    exists|keys: Room, fingerprints: Room, embeddings: Room|
                        {
                            &&& Some(keys.requested()) == requested_room(header).entries
                            &&& Some(fingerprints.requested()) == requested_room(header).entries
                            &&& Some(embeddings.requested()) == requested_room(header).values
                            &&& is_loaded(
                                index,
                                #[trigger] loaded_index(
                                    bytes@,
                                    rooms_view(keys, fingerprints, embeddings),
                                ),
                            )
                        }
                } else {
                    is_loaded(index, loaded_index(bytes@, granted_rooms()))
                },
                Err(_) => is_loaded(index, loaded_index(bytes@, granted_rooms())),
            },
    {
        let granted = IndexRoom { keys: Ok(()), fingerprints: Ok(()), embeddings: Ok(()) };
        let header = match read_index_header(bytes) {
            Ok(header) => header,
            Err(_) => return Self::load_with_room(bytes, &granted),
        };
        if check_size(header.count, header.dimensions).is_err() {
            assert(size_fault(header@) is Some);
            return Self::load_with_room(bytes, &granted);
        }
        assert(size_fault(header@) is None);
        let request = room_request(&header);
        match (request.entries, request.values) {
            (Some(count), Some(values)) => {
                let mut keys: Vec<String> = Vec::new();
                let mut fingerprints: Vec<u64> = Vec::new();
                let mut embeddings: Vec<u32> = Vec::new();
                let key_room = reserve_exact(&mut keys, count);
                let fingerprint_room = reserve_exact(&mut fingerprints, count);
                let embedding_room = reserve_exact(&mut embeddings, values);
                let ghost asked = rooms_view(key_room, fingerprint_room, embedding_room);
                let ghost rooms = (key_room, fingerprint_room, embedding_room);
                let room = IndexRoom {
                    keys: key_room.outcome(),
                    fingerprints: fingerprint_room.outcome(),
                    embeddings: embedding_room.outcome(),
                };
                assert(room@ == asked);
                let index = fill_index(bytes, &room, keys, fingerprints, embeddings);
                assert(is_loaded(
                    index,
                    loaded_index(bytes@, rooms_view(rooms.0, rooms.1, rooms.2)),
                ));
                index
            },
            _ => Self::load_with_room(bytes, &granted),
        }
    }

    /// How many different keys the index has.
    pub fn unique_items(&self) -> (count: usize)
        ensures
            count == self.groups@.len(),
    {
        self.groups.len()
    }
}

/// An index that was written for a named model is loaded with the same entries, where there is
/// room for it.
pub proof fn law_written_index_loads(
    model: Seq<char>,
    fingerprint: u64,
    records: Seq<RecordView>,
    dimensions: nat,
    room: IndexRoomView,
)
    requires
        dimensions > 0,
        encode_utf8(model).len() > 0,
        0 < records.len() <= usize::MAX,
        records.len() * dimensions <= usize::MAX,
        encoded_index(model, fingerprint, records, dimensions) is Ok,
        room_fault(room) is None,
    ensures
        loaded_index(encoded_index(model, fingerprint, records, dimensions)->Ok_0, room) == Ok::<
            (HeaderView, Seq<RecordView>),
            FailureView,
        >(
            (
                HeaderView {
                    dimensions: dimensions as u32,
                    model,
                    fingerprint,
                    count: records.len() as u64,
                },
                records,
            ),
        ),
{
    law_written_index_reads_back(model, fingerprint, records, dimensions, short_field());
}

} // verus!
