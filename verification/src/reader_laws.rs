//! What is read of an index, entry by entry.

use vstd::hash_map::StringHashMap;
use vstd::prelude::*;
use vstd::string::*;
use vstd::utf8::*;

use crate::failure::Failure;
use crate::index::{
    index_contents, read_index_fingerprints, read_index_fingerprints_with_room, read_index_header,
    requested_room, room_request, short_embedding, short_field, take_header, HeaderView, IndexEntry,
    IndexError, IndexHeader, IndexReader, RecordView, RoomRequest,
};
use crate::index_laws::{
    four_bytes, is_header, is_record, law_headers_are_laid_out, law_last_fingerprints_count,
    law_records_are_laid_out,
};
use crate::index_writer::{
    encode_index, encoded_records, fingerprint_path, index_string_length, index_u32,
    law_written_index_reads_back,
};
use crate::memory::Room;
use crate::names::text_views;
use crate::search::BuildEntry;
use crate::semantic_index::{
    group_views, is_grouping, is_loaded, law_written_index_loads, loaded_index, rooms_view,
    size_fault, IndexRoom, SemanticIndex,
};

verus! {

/// A header is read if and only if the bytes begin with one, and as it stands there. A reader begins
/// behind it, with all entries to come.
pub proof fn law_readers_begin_behind_the_header(
    bytes: &[u8],
    header: Result<IndexHeader, IndexError>,
    reader: Result<IndexReader, IndexError>,
)
    requires
        call_ensures(read_index_header, (bytes,), header),
        call_ensures(IndexReader::new, (bytes,), reader),
    ensures
        header matches Ok(header) ==> is_header(bytes@, header@, 32 + four_bytes(bytes@, 12)),
        header is Err ==> forall|any: HeaderView, end: int| !#[trigger] is_header(
            bytes@,
            any,
            end,
        ),
        reader is Ok <==> header is Ok,
        reader matches Ok(reader) ==> reader@.header == header->Ok_0@ && reader@.remaining
            == header->Ok_0.count && reader@.rest == bytes@.skip(32 + four_bytes(bytes@, 12)),
{
    law_headers_are_laid_out(bytes@);
}

/// An entry is skipped if and only if one is to come and stands there whole. It is told with its key and
/// fingerprint, and the reader goes on behind it.
pub proof fn law_skipped_entries_are_told()
    ensures
        forall|reader: &mut IndexReader, entry: Result<IndexEntry, IndexError>| #[trigger]
            call_ensures(IndexReader::skip_entry, (reader,), entry) ==> {
                let before = (*reader)@;
                let after = (*final(reader))@;
                let end = 12 + four_bytes(before.rest, 0) + 4 * before.header.dimensions;
                &&& entry is Ok <==> before.remaining > 0 && exists|record: RecordView|
                    is_record(before.rest, before.header.dimensions as int, record, end)
                &&& entry matches Ok(entry) ==> {
                    &&& after.rest == before.rest.skip(end)
                    &&& after.remaining == before.remaining - 1
                    &&& forall|record: RecordView| #[trigger]
                        is_record(before.rest, before.header.dimensions as int, record, end)
                            ==> entry.key@ == record.key && entry.fingerprint == record.fingerprint
                }
                &&& after.header == before.header
            },
{
    assert forall|reader: &mut IndexReader, entry: Result<IndexEntry, IndexError>| #[trigger]
        call_ensures(IndexReader::skip_entry, (reader,), entry) implies {
        let before = (*reader)@;
        let after = (*final(reader))@;
        let end = 12 + four_bytes(before.rest, 0) + 4 * before.header.dimensions;
        &&& entry is Ok <==> before.remaining > 0 && exists|record: RecordView|
            is_record(before.rest, before.header.dimensions as int, record, end)
        &&& entry matches Ok(entry) ==> {
            &&& after.rest == before.rest.skip(end)
            &&& after.remaining == before.remaining - 1
            &&& forall|record: RecordView| #[trigger]
                is_record(before.rest, before.header.dimensions as int, record, end) ==> entry.key@
                    == record.key && entry.fingerprint == record.fingerprint
        }
        &&& after.header == before.header
    } by {
        let before = (*reader)@;
        law_records_are_laid_out(
            before.rest,
            before.header.dimensions as nat,
            short_embedding(),
        );
    }
}

/// An entry is read if and only if one is to come, stands there whole, and there is room for it. Its
/// embedding comes behind those that were read before; an entry that cannot be read leaves them as they
/// are.
pub proof fn law_read_entries_add_their_embedding(room: Result<(), String>)
    ensures
        forall|
            reader: &mut IndexReader,
            embeddings: &mut Vec<u32>,
            entry: Result<IndexEntry, IndexError>,
        | #[trigger]
            call_ensures(IndexReader::read_entry_with_room, (reader, embeddings, room), entry)
                ==> {
                let before = (*reader)@;
                let after = (*final(reader))@;
                let end = 12 + four_bytes(before.rest, 0) + 4 * before.header.dimensions;
                &&& entry is Ok <==> room is Ok && before.remaining > 0 && exists|
                    record: RecordView,
                | is_record(before.rest, before.header.dimensions as int, record, end)
                &&& entry matches Ok(entry) ==> {
                    &&& after.rest == before.rest.skip(end)
                    &&& after.remaining == before.remaining - 1
                    &&& exists|record: RecordView| #[trigger]
                        is_record(before.rest, before.header.dimensions as int, record, end)
                            && entry.key@ == record.key && entry.fingerprint == record.fingerprint
                            && (*final(embeddings))@ == (*embeddings)@ + record.embedding
                }
                &&& entry is Err ==> (*final(embeddings))@ == (*embeddings)@
                &&& after.header == before.header
            },
{
    assert forall|
        reader: &mut IndexReader,
        embeddings: &mut Vec<u32>,
        entry: Result<IndexEntry, IndexError>,
    | #[trigger]
        call_ensures(
            IndexReader::read_entry_with_room,
            (reader, embeddings, room),
            entry,
        ) implies {
        let before = (*reader)@;
        let after = (*final(reader))@;
        let end = 12 + four_bytes(before.rest, 0) + 4 * before.header.dimensions;
        &&& entry is Ok <==> room is Ok && before.remaining > 0 && exists|record: RecordView|
            is_record(before.rest, before.header.dimensions as int, record, end)
        &&& entry matches Ok(entry) ==> {
            &&& after.rest == before.rest.skip(end)
            &&& after.remaining == before.remaining - 1
            &&& exists|record: RecordView| #[trigger]
                is_record(before.rest, before.header.dimensions as int, record, end) && entry.key@
                    == record.key && entry.fingerprint == record.fingerprint && (
                *final(embeddings))@ == (*embeddings)@ + record.embedding
        }
        &&& entry is Err ==> (*final(embeddings))@ == (*embeddings)@
        &&& after.header == before.header
    } by {
        let before = (*reader)@;
        law_records_are_laid_out(before.rest, before.header.dimensions as nat, short_field());
        if entry is Ok {
            let record = crate::index::take_record(
                before.rest,
                before.header.dimensions as nat,
                short_field(),
            ).0->Ok_0;
            assert((*final(embeddings))@ == (*embeddings)@ + record.embedding);
        }
    }
}

/// An index ends with its last entry: a reader that has entries to come, or bytes left, is refused.
pub proof fn law_readers_end_with_the_last_entry(
    reader: IndexReader,
    header: Result<IndexHeader, IndexError>,
)
    requires
        call_ensures(IndexReader::finish, (reader,), header),
    ensures
        header is Ok <==> reader@.remaining == 0 && reader@.rest.len() == 0,
        header matches Ok(header) ==> header@ == reader@.header,
{
}

/// The fingerprints of an index are read if and only if it can be read to its end and there is room for
/// them. Every key of the index has one, that of its last entry, and no other text has.
pub proof fn law_fingerprints_are_those_of_the_entries(
    bytes: &[u8],
    room: Result<(), String>,
    entries: Result<StringHashMap<u64>, IndexError>,
    key: Seq<char>,
)
    requires
        call_ensures(read_index_fingerprints_with_room, (bytes, room), entries),
    ensures
        entries is Ok <==> room is Ok && (index_contents(bytes@, short_embedding()) matches Ok(
            contents,
        ) && contents.0.count <= usize::MAX),
        entries matches Ok(map) ==> (index_contents(bytes@, short_embedding()) matches Ok(contents)
            && {
            let records = contents.1;
            &&& map@.contains_key(key) <==> exists|i: int|
                0 <= i < records.len() && (#[trigger] records[i]).key == key
            &&& map@.contains_key(key) ==> exists|i: int|
                {
                    &&& 0 <= i < records.len()
                    &&& (#[trigger] records[i]).key == key
                    &&& records[i].fingerprint == map@[key]
                    &&& forall|j: int| i < j < records.len() ==> (#[trigger] records[j]).key != key
                }
        }),
{
    if let Ok(contents) = index_contents(bytes@, short_embedding()) {
        law_last_fingerprints_count(contents.1, key);
    }
}

/// The memory that an index takes is told by its header: for its entries, for the numbers of one embedding,
/// and for those of all of them; where there are too many, it is not told.
pub proof fn law_room_is_told_by_the_header(header: &IndexHeader, request: RoomRequest)
    requires
        call_ensures(room_request, (header,), request),
    ensures
        header.dimensions <= usize::MAX ==> request.embedding == header.dimensions,
        request.entries matches Some(entries) ==> entries == header.count,
        request.entries is None <==> header.count > usize::MAX,
        request.values matches Some(values) ==> values == header.count * header.dimensions,
        request.values is None <==> header.count * header.dimensions > usize::MAX,
{
    assert(0 <= header.count * header.dimensions) by (nonlinear_arith);
}

/// The fingerprint of an index is kept beside it.
pub proof fn law_fingerprints_stand_beside_the_index(index: &str, path: String)
    requires
        call_ensures(fingerprint_path, (index,), path),
    ensures
        path@ == index@ + ".fingerprint"@,
        path@.len() > index@.len(),
{
    reveal_strlit(".fingerprint");
}

/// A number is written in an index if and only if it fits in four bytes, and a text if and only if it is no
/// longer than a mebibyte.
pub proof fn law_written_fields_fit(
    value: usize,
    field: &str,
    number: Result<u32, Failure>,
    length: Result<u32, Failure>,
)
    requires
        call_ensures(index_u32, (value, field), number),
        call_ensures(index_string_length, (value, field), length),
    ensures
        number is Ok <==> value <= 0xffff_ffff,
        number matches Ok(number) ==> number == value,
        length is Ok <==> value <= 1_048_576,
        length matches Ok(length) ==> length == value,
{
}

/// What is written is what is loaded: an index that was written of entries loads, where there is room for
/// it, with the model, and with the key, the fingerprint and the embedding of every entry in its place. Its
/// header tells the fingerprint of the whole and how many entries there are, and its entries are grouped.
pub proof fn law_written_entries_are_loaded(
    model: &str,
    fingerprint: u64,
    entries: &[(BuildEntry, Vec<u32>)],
    dimensions: usize,
    written: Vec<u8>,
    bytes: &[u8],
    room: &IndexRoom,
    index: Result<SemanticIndex, Failure>,
    header: Result<IndexHeader, IndexError>,
)
    requires
        call_ensures(
            encode_index,
            (model, fingerprint, entries, dimensions),
            Ok::<Vec<u8>, Failure>(written),
        ),
        bytes@ == written@,
        dimensions > 0,
        encode_utf8(model@).len() > 0,
        0 < entries@.len() <= usize::MAX,
        entries@.len() * dimensions <= usize::MAX,
        room.keys is Ok && room.fingerprints is Ok && room.embeddings is Ok,
        call_ensures(SemanticIndex::load_with_room, (bytes, room), index),
        call_ensures(read_index_header, (bytes,), header),
    ensures
        header matches Ok(header) && header.fingerprint == fingerprint && header.count
            == entries@.len() && header.model@ == model@ && header.dimensions == dimensions,
        index matches Ok(index) && {
            &&& index.model@ == model@
            &&& index.dimensions == dimensions
            &&& index.keys@.len() == entries@.len()
            &&& index.fingerprints@.len() == entries@.len()
            &&& index.embeddings@.len() == entries@.len() * dimensions
            &&& forall|i: int|
                0 <= i < entries@.len() ==> {
                    &&& (#[trigger] index.keys@[i])@ == entries@[i].0.key@
                    &&& index.fingerprints@[i] == entries@[i].0.fingerprint
                    &&& index.embeddings@.subrange(i * dimensions, (i + 1) * dimensions)
                        == entries@[i].1@
                }
            &&& is_grouping(text_views(index.keys@), group_views(index.groups@))
        },
{
    let records = encoded_records(entries@);
    law_written_index_loads(model@, fingerprint, records, dimensions as nat, room@);
    law_written_index_reads_back(model@, fingerprint, records, dimensions as nat, short_field());
    crate::index_laws::law_loaded_indexes_hold_every_entry(bytes, room, index);
    if let Ok(loaded) = index {
        assert forall|i: int| 0 <= i < entries@.len() implies {
            &&& (#[trigger] loaded.keys@[i])@ == entries@[i].0.key@
            &&& loaded.fingerprints@[i] == entries@[i].0.fingerprint
            &&& loaded.embeddings@.subrange(i * dimensions, (i + 1) * dimensions)
                == entries@[i].1@
        } by {
            assert(records[i].key == entries@[i].0.key@);
        }
    }
}

/// An index is refused if and only if there is no room for it, it cannot be read to its end, it is empty,
/// or it has too many numbers to be held.
pub proof fn law_loaded_indexes_are_sound(
    bytes: &[u8],
    room: &IndexRoom,
    index: Result<SemanticIndex, Failure>,
)
    requires
        call_ensures(SemanticIndex::load_with_room, (bytes, room), index),
    ensures
        index is Ok <==> room.keys is Ok && room.fingerprints is Ok && room.embeddings is Ok && (
        index_contents(bytes@, short_field()) matches Ok((header, _)) && 0 < header.count
            <= usize::MAX && header.count * header.dimensions <= usize::MAX),
{
}

/// An index has as many items as groups.
pub proof fn law_items_are_groups(index: &SemanticIndex, count: usize)
    requires
        call_ensures(SemanticIndex::unique_items, (index,), count),
    ensures
        count == index.groups@.len(),
{
}

/// The fingerprints of an index are read only of one that can be read to its end, and are then those of its
/// entries.
pub proof fn law_fingerprints_need_a_sound_index(
    bytes: &[u8],
    entries: Result<StringHashMap<u64>, IndexError>,
    key: Seq<char>,
)
    requires
        call_ensures(read_index_fingerprints, (bytes,), entries),
    ensures
        index_contents(bytes@, short_embedding()) is Err ==> entries is Err,
        entries matches Ok(map) ==> (index_contents(bytes@, short_embedding()) matches Ok(contents)
            && {
            let records = contents.1;
            &&& map@.contains_key(key) <==> exists|i: int|
                0 <= i < records.len() && (#[trigger] records[i]).key == key
            &&& map@.contains_key(key) ==> exists|i: int|
                {
                    &&& 0 <= i < records.len()
                    &&& (#[trigger] records[i]).key == key
                    &&& records[i].fingerprint == map@[key]
                    &&& forall|j: int| i < j < records.len() ==> (#[trigger] records[j]).key != key
                }
        }),
{
    if let Ok(contents) = index_contents(bytes@, short_embedding()) {
        law_last_fingerprints_count(contents.1, key);
    }
}

proof fn lemma_loaded(bytes: &[u8], index: SemanticIndex)
    requires
        call_ensures(SemanticIndex::load, (bytes,), Ok::<SemanticIndex, Failure>(index)),
    ensures
        index_contents(bytes@, short_field()) matches Ok((header, records)) && index.holds(
            header,
            records,
        ) && index.is_complete() && header.count > 0,
{
    let outcome = Ok::<SemanticIndex, Failure>(index);
    if let Ok(header) = take_header(bytes@).0 {
        if size_fault(header) is None {
            let (keys, fingerprints, embeddings) = choose|
                keys: Room,
                fingerprints: Room,
                embeddings: Room,
            |
                {
                    &&& Some(keys.requested()) == requested_room(header).entries
                    &&& Some(fingerprints.requested()) == requested_room(header).entries
                    &&& Some(embeddings.requested()) == requested_room(header).values
                    &&& is_loaded(
                        outcome,
                        #[trigger] loaded_index(
                            bytes@,
                            rooms_view(keys, fingerprints, embeddings),
                        ),
                    )
                };
            let expected = loaded_index(bytes@, rooms_view(keys, fingerprints, embeddings));
            assert(is_loaded(outcome, expected));
            assert(expected is Ok);
        }
    }
}

/// An index is loaded only if it can be read to its end and is not empty, and holds its entries then.
pub proof fn law_indexes_are_loaded_as_they_are(
    bytes: &[u8],
    index: Result<SemanticIndex, Failure>,
)
    requires
        call_ensures(SemanticIndex::load, (bytes,), index),
    ensures
        index_contents(bytes@, short_field()) is Err ==> index is Err,
        index matches Ok(index) ==> (index_contents(bytes@, short_field()) matches Ok(
            (header, records),
        ) && {
            &&& records.len() > 0
            &&& index.model@ == header.model
            &&& index.dimensions == header.dimensions
            &&& index.keys@.len() == records.len()
            &&& index.fingerprints@.len() == records.len()
            &&& index.embeddings@.len() == records.len() * index.dimensions
            &&& forall|i: int|
                0 <= i < records.len() ==> {
                    &&& (#[trigger] index.keys@[i])@ == records[i].key
                    &&& index.fingerprints@[i] == records[i].fingerprint
                    &&& index.embeddings@.subrange(
                        i * index.dimensions,
                        (i + 1) * index.dimensions,
                    ) == records[i].embedding
                }
        }),
{
    if let Ok(loaded) = index {
        lemma_loaded(bytes, loaded);
        if let Ok((header, records)) = index_contents(bytes@, short_field()) {
            crate::index_laws::lemma_records_sized(
                crate::index::take_header(bytes@).1,
                header.dimensions as nat,
                header.count as nat,
                short_field(),
            );
            assert(text_views(loaded.keys@).len() == loaded.keys@.len());
            assert forall|i: int| 0 <= i < records.len() implies {
                &&& (#[trigger] loaded.keys@[i])@ == records[i].key
                &&& loaded.fingerprints@[i] == records[i].fingerprint
                &&& loaded.embeddings@.subrange(
                    i * loaded.dimensions,
                    (i + 1) * loaded.dimensions,
                ) == records[i].embedding
            } by {
                assert(text_views(loaded.keys@)[i] == loaded.keys@[i]@);
                crate::index_laws::lemma_joined(records, loaded.dimensions as nat, i);
            }
        }
    }
}

/// An entry is read only if one is to come and stands there whole. Its embedding comes behind those that
/// were read before; an entry that cannot be read leaves them as they are.
pub proof fn law_entries_are_read_in_turn()
    ensures
        forall|
            reader: &mut IndexReader,
            embeddings: &mut Vec<u32>,
            entry: Result<IndexEntry, IndexError>,
        | #[trigger]
            call_ensures(IndexReader::read_entry_into, (reader, embeddings), entry) ==> {
                let before = (*reader)@;
                let after = (*final(reader))@;
                let end = 12 + four_bytes(before.rest, 0) + 4 * before.header.dimensions;
                &&& entry matches Ok(entry) ==> {
                    &&& before.remaining > 0
                    &&& after.rest == before.rest.skip(end)
                    &&& after.remaining == before.remaining - 1
                    &&& exists|record: RecordView| #[trigger]
                        is_record(before.rest, before.header.dimensions as int, record, end)
                            && entry.key@ == record.key && entry.fingerprint == record.fingerprint
                            && (*final(embeddings))@ == (*embeddings)@ + record.embedding
                }
                &&& entry is Err ==> (*final(embeddings))@ == (*embeddings)@
                &&& after.header == before.header
            },
{
    assert forall|
        reader: &mut IndexReader,
        embeddings: &mut Vec<u32>,
        entry: Result<IndexEntry, IndexError>,
    | #[trigger]
        call_ensures(IndexReader::read_entry_into, (reader, embeddings), entry) implies {
        let before = (*reader)@;
        let after = (*final(reader))@;
        let end = 12 + four_bytes(before.rest, 0) + 4 * before.header.dimensions;
        &&& entry matches Ok(entry) ==> {
            &&& before.remaining > 0
            &&& after.rest == before.rest.skip(end)
            &&& after.remaining == before.remaining - 1
            &&& exists|record: RecordView| #[trigger]
                is_record(before.rest, before.header.dimensions as int, record, end) && entry.key@
                    == record.key && entry.fingerprint == record.fingerprint && (
                *final(embeddings))@ == (*embeddings)@ + record.embedding
        }
        &&& entry is Err ==> (*final(embeddings))@ == (*embeddings)@
        &&& after.header == before.header
    } by {
        let before = (*reader)@;
        law_records_are_laid_out(before.rest, before.header.dimensions as nat, short_field());
        if entry is Ok {
            let record = crate::index::take_record(
                before.rest,
                before.header.dimensions as nat,
                short_field(),
            ).0->Ok_0;
            assert((*final(embeddings))@ == (*embeddings)@ + record.embedding);
        }
    }
}

} // verus!
