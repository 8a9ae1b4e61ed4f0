//! What the bytes of an index mean, and what is read from them.

use vstd::prelude::*;
use vstd::string::*;
use vstd::utf8::*;

use crate::bytes::le_value;
use crate::failure::Failure;
use crate::index::{
    fingerprint_map, index_contents, short_embedding, short_field, take_header, take_record,
    take_records, validate_index, HeaderView, IndexError, IndexErrorView, IndexHeader, RecordView,
};
use crate::index_writer::{encode_index, encoded_records, record_fault, records_fault};
use crate::names::text_views;
use crate::search::BuildEntry;
use crate::semantic_index::{
    group_keys, group_views, joined_embeddings, Group, IndexRoom, SemanticIndex,
};

verus! {

/// The number that four bytes spell, the lowest first.
pub open spec fn four_bytes(bytes: Seq<u8>, at: int) -> int {
    bytes[at] + 0x100 * bytes[at + 1] + 0x1_0000 * bytes[at + 2] + 0x100_0000 * bytes[at + 3]
}

/// The number that eight bytes spell, the lowest first.
pub open spec fn eight_bytes(bytes: Seq<u8>, at: int) -> int {
    four_bytes(bytes, at) + 0x1_0000_0000 * four_bytes(bytes, at + 4)
}

/// Numbers are spelled with their lowest byte first.
pub proof fn law_numbers_are_little_endian(bytes: Seq<u8>)
    ensures
        bytes.len() == 4 ==> le_value(bytes) == four_bytes(bytes, 0),
        bytes.len() == 8 ==> le_value(bytes) == eight_bytes(bytes, 0),
{
    reveal_with_fuel(le_value, 9);
    if bytes.len() == 4 || bytes.len() == 8 {
        let b1 = bytes.drop_first();
        let b2 = b1.drop_first();
        let b3 = b2.drop_first();
        let b4 = b3.drop_first();
        assert(b1[0] == bytes[1] && b2[0] == bytes[2] && b3[0] == bytes[3]);
        if bytes.len() == 8 {
            let b5 = b4.drop_first();
            let b6 = b5.drop_first();
            let b7 = b6.drop_first();
            let b8 = b7.drop_first();
            assert(b4[0] == bytes[4] && b5[0] == bytes[5] && b6[0] == bytes[6] && b7[0] == bytes[7]);
            assert(b8.len() == 0);
        } else {
            assert(b4.len() == 0);
        }
    }
}

proof fn lemma_field(bytes: Seq<u8>, at: int, width: int)
    requires
        0 <= at,
        at + width <= bytes.len(),
        width == 4 || width == 8,
    ensures
        width == 4 ==> le_value(bytes.subrange(at, at + width)) == four_bytes(bytes, at),
        width == 8 ==> le_value(bytes.subrange(at, at + width)) == eight_bytes(bytes, at),
{
    law_numbers_are_little_endian(bytes.subrange(at, at + width));
}

/// Whether bytes begin with the header of an index: the letters `SKWDSEM3`, the size of an embedding,
/// the length of the model's name, the name, the fingerprint and the number of entries. The header
/// ends at `end`.
pub open spec fn is_header(bytes: Seq<u8>, header: HeaderView, end: int) -> bool {
    let length = four_bytes(bytes, 12);
    &&& end == 32 + length
    &&& 16 <= bytes.len()
    &&& end <= bytes.len()
    &&& bytes.take(8) == seq![0x53u8, 0x4b, 0x57, 0x44, 0x53, 0x45, 0x4d, 0x33]
    &&& header.dimensions == four_bytes(bytes, 8)
    &&& header.dimensions > 0
    &&& 0 < length <= 1_048_576
    &&& valid_utf8(bytes.subrange(16, 16 + length))
    &&& header.model == decode_utf8(bytes.subrange(16, 16 + length))
    &&& header.fingerprint == eight_bytes(bytes, 16 + length)
    &&& header.count == eight_bytes(bytes, 24 + length)
}

/// A header is read if and only if the bytes begin with one, and as it stands there; what follows it is
/// left.
pub proof fn law_headers_are_laid_out(bytes: Seq<u8>)
    ensures
        match take_header(bytes) {
            (Ok(header), rest) => {
                &&& is_header(bytes, header, 32 + four_bytes(bytes, 12))
                &&& rest == bytes.skip(32 + four_bytes(bytes, 12))
            },
            (Err(_), _) => forall|header: HeaderView, end: int| !#[trigger] is_header(
                bytes,
                header,
                end,
            ),
        },
{
    assert(crate::index::INDEX_MAGIC@ =~= seq![
        0x53u8,
        0x4b,
        0x57,
        0x44,
        0x53,
        0x45,
        0x4d,
        0x33,
    ]);
    if bytes.len() >= 8 {
        let after_magic = bytes.skip(8);
        if after_magic.len() >= 4 {
            assert(after_magic.take(4) =~= bytes.subrange(8, 12));
            lemma_field(bytes, 8, 4);
            let after_dimensions = after_magic.skip(4);
            assert(after_dimensions =~= bytes.skip(12));
            if after_dimensions.len() >= 4 {
                assert(after_dimensions.take(4) =~= bytes.subrange(12, 16));
                lemma_field(bytes, 12, 4);
                let length = four_bytes(bytes, 12);
                let after_length = after_dimensions.skip(4);
                assert(after_length =~= bytes.skip(16));
                if after_length.len() >= length {
                    assert(after_length.take(length) =~= bytes.subrange(16, 16 + length));
                    let after_model = after_length.skip(length);
                    assert(after_model =~= bytes.skip(16 + length));
                    if after_model.len() >= 8 {
                        assert(after_model.take(8) =~= bytes.subrange(16 + length, 24 + length));
                        lemma_field(bytes, 16 + length, 8);
                        let after_fingerprint = after_model.skip(8);
                        assert(after_fingerprint =~= bytes.skip(24 + length));
                        if after_fingerprint.len() >= 8 {
                            assert(after_fingerprint.take(8) =~= bytes.subrange(
                                24 + length,
                                32 + length,
                            ));
                            lemma_field(bytes, 24 + length, 8);
                            assert(after_fingerprint.skip(8) =~= bytes.skip(32 + length));
                        }
                    }
                }
            }
        }
    }
}

/// Whether bytes begin with an entry: the length of its key, the key, its fingerprint, and the numbers
/// of its embedding. The entry ends at `end`.
pub open spec fn is_record(bytes: Seq<u8>, dimensions: int, record: RecordView, end: int) -> bool {
    let length = four_bytes(bytes, 0);
    &&& end == 12 + length + 4 * dimensions
    &&& 4 <= bytes.len()
    &&& end <= bytes.len()
    &&& length <= 1_048_576
    &&& valid_utf8(bytes.subrange(4, 4 + length))
    &&& record.key == decode_utf8(bytes.subrange(4, 4 + length))
    &&& record.fingerprint == eight_bytes(bytes, 4 + length)
    &&& record.embedding.len() == dimensions
    &&& forall|i: int|
        0 <= i < dimensions ==> #[trigger] record.embedding[i] == four_bytes(
            bytes,
            12 + length + 4 * i,
        )
}

/// An entry is read if and only if the bytes begin with one, and as it stands there; what follows it is
/// left.
pub proof fn law_records_are_laid_out(
    bytes: Seq<u8>,
    dimensions: nat,
    shortage: IndexErrorView,
)
    ensures
        match take_record(bytes, dimensions, shortage) {
            (Ok(record), rest) => {
                let end = 12 + four_bytes(bytes, 0) + 4 * dimensions;
                is_record(bytes, dimensions as int, record, end) && rest == bytes.skip(end)
            },
            (Err(_), _) => forall|record: RecordView, end: int| !#[trigger] is_record(
                bytes,
                dimensions as int,
                record,
                end,
            ),
        },
{
    if bytes.len() >= 4 {
        assert(bytes.take(4) =~= bytes.subrange(0, 4));
        lemma_field(bytes, 0, 4);
        let length = four_bytes(bytes, 0);
        let after_length = bytes.skip(4);
        if after_length.len() >= length && length >= 0 {
            assert(after_length.take(length) =~= bytes.subrange(4, 4 + length));
            let after_key = after_length.skip(length);
            assert(after_key =~= bytes.skip(4 + length));
            if after_key.len() >= 8 {
                assert(after_key.take(8) =~= bytes.subrange(4 + length, 12 + length));
                lemma_field(bytes, 4 + length, 8);
                let body = after_key.skip(8);
                assert(body =~= bytes.skip(12 + length));
                if body.len() >= 4 * dimensions {
                    assert(body.skip(4 * dimensions as int) =~= bytes.skip(
                        12 + length + 4 * dimensions,
                    ));
                    let record = take_record(bytes, dimensions, shortage).0;
                    assert forall|i: int| 0 <= i < dimensions implies
                        #[trigger] crate::index::embedding_value(body, i) == four_bytes(
                        bytes,
                        12 + length + 4 * i,
                    ) by {
                        assert(body.subrange(4 * i, 4 * i + 4) =~= bytes.subrange(
                            12 + length + 4 * i,
                            16 + length + 4 * i,
                        ));
                        lemma_field(bytes, 12 + length + 4 * i, 4);
                    }
                }
            }
        }
    }
}

proof fn lemma_records_fault(records: Seq<RecordView>, dimensions: nat)
    ensures
        records_fault(records, dimensions) is None <==> forall|i: int|
            0 <= i < records.len() ==> encode_utf8((#[trigger] records[i]).key).len() <= 1_048_576
                && records[i].embedding.len() == dimensions,
    decreases records.len(),
{
    if records.len() > 0 {
        let rest = records.drop_first();
        lemma_records_fault(rest, dimensions);
        assert forall|i: int| 0 <= i < rest.len() implies rest[i] == #[trigger] records[i + 1] by {
        }
        if record_fault(records[0], dimensions) is None && records_fault(rest, dimensions) is None {
            assert forall|i: int| 0 <= i < records.len() implies encode_utf8(
                (#[trigger] records[i]).key,
            ).len() <= 1_048_576 && records[i].embedding.len() == dimensions by {
                if i > 0 {
                    assert(rest[i - 1] == records[i]);
                }
            }
        }
        if forall|i: int|
            0 <= i < records.len() ==> encode_utf8((#[trigger] records[i]).key).len() <= 1_048_576
                && records[i].embedding.len() == dimensions {
            assert(encode_utf8(records[0].key).len() <= 1_048_576);
            assert forall|i: int| 0 <= i < rest.len() implies encode_utf8(
                (#[trigger] rest[i]).key,
            ).len() <= 1_048_576 && rest[i].embedding.len() == dimensions by {
                assert(rest[i] == records[i + 1]);
            }
        }
    }
}

/// An index is written if and only if the size of its embeddings fits in four bytes, its texts are no
/// longer than a mebibyte, and every embedding has that size.
pub proof fn law_written_indexes_fit(
    model: &str,
    fingerprint: u64,
    entries: &[(BuildEntry, Vec<u32>)],
    dimensions: usize,
    encoded: Result<Vec<u8>, Failure>,
)
    requires
        call_ensures(encode_index, (model, fingerprint, entries, dimensions), encoded),
    ensures
        encoded is Ok <==> {
            &&& dimensions <= 0xffff_ffff
            &&& encode_utf8(model@).len() <= 1_048_576
            &&& forall|i: int|
                0 <= i < entries@.len() ==> encode_utf8((#[trigger] entries@[i]).0.key@).len()
                    <= 1_048_576 && entries@[i].1@.len() == dimensions
        },
{
    let records = encoded_records(entries@);
    lemma_records_fault(records, dimensions as nat);
    assert forall|i: int| 0 <= i < entries@.len() implies records[i].key == (
    #[trigger] entries@[i]).0.key@ && records[i].embedding == entries@[i].1@ by {
    }
    if forall|i: int|
        0 <= i < records.len() ==> encode_utf8((#[trigger] records[i]).key).len() <= 1_048_576
            && records[i].embedding.len() == dimensions {
        assert forall|i: int| 0 <= i < entries@.len() implies encode_utf8(
            (#[trigger] entries@[i]).0.key@,
        ).len() <= 1_048_576 && entries@[i].1@.len() == dimensions by {
            assert(records[i].key == entries@[i].0.key@);
        }
    }
}

/// Of entries with one key the fingerprint of the last counts; a key without an entry has none.
pub proof fn law_last_fingerprints_count(records: Seq<RecordView>, key: Seq<char>)
    ensures
        fingerprint_map(records).contains_key(key) <==> exists|i: int|
            0 <= i < records.len() && (#[trigger] records[i]).key == key,
        fingerprint_map(records).contains_key(key) ==> exists|i: int|
            {
                &&& 0 <= i < records.len()
                &&& (#[trigger] records[i]).key == key
                &&& records[i].fingerprint == fingerprint_map(records)[key]
                &&& forall|j: int| i < j < records.len() ==> (#[trigger] records[j]).key != key
            },
    decreases records.len(),
{
    if records.len() > 0 {
        let rest = records.drop_last();
        let last = records.last();
        law_last_fingerprints_count(rest, key);
        if last.key == key {
            assert(records[records.len() - 1].key == key);
        } else if fingerprint_map(rest).contains_key(key) {
            let i = choose|i: int|
                {
                    &&& 0 <= i < rest.len()
                    &&& (#[trigger] rest[i]).key == key
                    &&& rest[i].fingerprint == fingerprint_map(rest)[key]
                    &&& forall|j: int| i < j < rest.len() ==> (#[trigger] rest[j]).key != key
                };
            assert(records[i] == rest[i]);
            assert forall|j: int| i < j < records.len() implies (#[trigger] records[j]).key
                != key by {
                if j < rest.len() {
                    assert(rest[j] == records[j]);
                }
            }
        } else {
            assert forall|i: int| 0 <= i < records.len() implies (#[trigger] records[i]).key
                != key by {
                if i < rest.len() {
                    assert(rest[i] == records[i]);
                }
            }
        }
    }
}

/// An index is valid if and only if it has at least one entry and can be read from its first byte to
/// its last.
pub proof fn law_valid_indexes_are_read_to_the_end(
    bytes: &[u8],
    header: Result<IndexHeader, IndexError>,
)
    requires
        call_ensures(validate_index, (bytes,), header),
    ensures
        header matches Ok(header) ==> header.count > 0 && (index_contents(
            bytes@,
            short_embedding(),
        ) matches Ok(contents) && contents.0 == header@),
        header is Err ==> (index_contents(bytes@, short_embedding()) matches Ok(contents)
            ==> contents.0.count == 0),
{
}

/// The embeddings of entries stand one after the other.
pub proof fn lemma_joined(records: Seq<RecordView>, dimensions: nat, at: int)
    requires
        forall|i: int|
            0 <= i < records.len() ==> (#[trigger] records[i]).embedding.len() == dimensions,
        0 <= at < records.len(),
    ensures
        joined_embeddings(records).len() == records.len() * dimensions,
        joined_embeddings(records).subrange(at * dimensions, (at + 1) * dimensions)
            == records[at].embedding,
        0 <= at * dimensions <= (at + 1) * dimensions <= records.len() * dimensions,
    decreases records.len(),
{
    let rest = records.drop_last();
    let last = records.last();
    let before = joined_embeddings(rest);
    let all = joined_embeddings(records);
    assert(last == records[records.len() - 1]);
    assert forall|i: int| 0 <= i < rest.len() implies (#[trigger] rest[i]).embedding.len()
        == dimensions by {
        assert(rest[i] == records[i]);
    }
    assert(records.len() * dimensions == rest.len() * dimensions + dimensions) by (nonlinear_arith)
        requires
            rest.len() == records.len() - 1,
    ;
    assert((at + 1) * dimensions == at * dimensions + dimensions) by (nonlinear_arith);
    assert(0 <= at * dimensions) by (nonlinear_arith)
        requires
            0 <= at,
    ;
    if rest.len() > 0 {
        lemma_joined(
            rest,
            dimensions,
            if at < rest.len() {
                at
            } else {
                0
            },
        );
    } else {
        assert(before.len() == 0);
        assert(rest.len() * dimensions == 0) by (nonlinear_arith)
            requires
                rest.len() == 0,
        ;
    }
    assert(before.len() == rest.len() * dimensions);
    if at < rest.len() {
        assert((at + 1) * dimensions <= rest.len() * dimensions) by (nonlinear_arith)
            requires
                at + 1 <= rest.len(),
        ;
        assert(all.subrange(at * dimensions, (at + 1) * dimensions) =~= before.subrange(
            at * dimensions,
            (at + 1) * dimensions,
        ));
        assert(rest[at] == records[at]);
    } else {
        assert(all.subrange(at * dimensions, (at + 1) * dimensions) =~= last.embedding);
    }
}

/// Entries that are read have embeddings of the size of the index.
pub proof fn lemma_records_sized(
    bytes: Seq<u8>,
    dimensions: nat,
    count: nat,
    shortage: IndexErrorView,
)
    ensures
        take_records(bytes, dimensions, count, shortage).0 matches Ok(records) ==> records.len()
            == count && forall|i: int|
            0 <= i < records.len() ==> (#[trigger] records[i]).embedding.len() == dimensions,
    decreases count,
{
    if count > 0 {
        if let (Ok(record), rest) = take_record(bytes, dimensions, shortage) {
            lemma_records_sized(rest, dimensions, (count - 1) as nat, shortage);
        }
    }
}

/// An index that is loaded has, for every entry that its bytes hold, its key, its fingerprint and its
/// embedding, in the order of the bytes; and at least one entry.
pub proof fn law_loaded_indexes_hold_every_entry(
    bytes: &[u8],
    room: &IndexRoom,
    index: Result<SemanticIndex, Failure>,
)
    requires
        call_ensures(SemanticIndex::load_with_room, (bytes, room), index),
    ensures
        index matches Ok(index) ==> (index_contents(bytes@, short_field()) matches Ok(
            (header, records),
        ) && {
            &&& records.len() > 0
            &&& index.model@ == header.model
            &&& index.dimensions == header.dimensions
            &&& index.keys@.len() == records.len()
            &&& index.fingerprints@.len() == records.len()
            &&& forall|i: int|
                0 <= i < records.len() ==> {
                    &&& (#[trigger] index.keys@[i])@ == records[i].key
                    &&& index.fingerprints@[i] == records[i].fingerprint
                    &&& index.embeddings@.subrange(
                        i * index.dimensions,
                        (i + 1) * index.dimensions,
                    ) == records[i].embedding
                }
        }),
        room.keys is Err || room.fingerprints is Err || room.embeddings is Err ==> index is Err,
{
    if let Ok(loaded) = index {
        if let (Ok(header), body) = take_header(bytes@) {
            lemma_records_sized(
                body,
                header.dimensions as nat,
                header.count as nat,
                short_field(),
            );
            let records = index_contents(bytes@, short_field())->Ok_0.1;
            assert(text_views(loaded.keys@).len() == loaded.keys@.len());
            assert forall|i: int| 0 <= i < records.len() implies {
                &&& (#[trigger] loaded.keys@[i])@ == records[i].key
                &&& loaded.fingerprints@[i] == records[i].fingerprint
                &&& loaded.embeddings@.subrange(
                    i * loaded.dimensions,
                    (i + 1) * loaded.dimensions,
                ) == records[i].embedding
            } by {
                assert(text_views(loaded.keys@)[i] == loaded.keys@[i]@);
                lemma_joined(records, loaded.dimensions as nat, i);
            }
        }
    }
}

/// Whether an entry is in a group that has its key.
pub open spec fn is_in_its_group(keys: Seq<String>, groups: Seq<Group>, i: int) -> bool {
    exists|g: int|
        0 <= g < groups.len() && (#[trigger] groups[g]).key@ == keys[i]@
            && groups[g].items@.contains(i as usize)
}

/// Entries are grouped by their keys: each entry is in one group, which has its key; no two groups have
/// the same key; the groups stand in the order in which their keys first appear, and the entries of a
/// group in the order of the index.
pub proof fn law_groups_stand_in_order(keys: &Vec<String>, groups: Vec<Group>)
    requires
        call_ensures(group_keys, (keys,), groups),
        keys@.len() <= usize::MAX,
    ensures
        forall|g: int, k: int|
            0 <= g < groups@.len() && 0 <= k < groups@[g].items@.len() ==> (
            #[trigger] groups@[g].items@[k]) < keys@.len() && keys@[groups@[g].items@[k] as int]@
                == groups@[g].key@,
        forall|g: int, k: int, l: int|
            0 <= g < groups@.len() && 0 <= k < l < groups@[g].items@.len() ==> (
            #[trigger] groups@[g].items@[k]) < (#[trigger] groups@[g].items@[l]),
        forall|i: int| 0 <= i < keys@.len() ==> #[trigger] is_in_its_group(keys@, groups@, i),
        forall|g: int, h: int|
            0 <= g < h < groups@.len() ==> (#[trigger] groups@[g]).key@ != (
            #[trigger] groups@[h]).key@ && groups@[g].items@.len() > 0 && groups@[h].items@.len() > 0
                && groups@[g].items@[0] < groups@[h].items@[0],
{
    let views = group_views(groups@);
    let texts = text_views(keys@);
    assert forall|g: int| 0 <= g < groups@.len() implies views[g] == (#[trigger] groups@[g])@ by {
    }
    assert forall|i: int| 0 <= i < keys@.len() implies #[trigger] is_in_its_group(
        keys@,
        groups@,
        i,
    ) by {
        assert(crate::semantic_index::is_grouped(views, i as usize));
        let g = choose|g: int|
            0 <= g < views.len() && (#[trigger] views[g]).items.contains(i as usize);
        let k = choose|k: int| 0 <= k < views[g].items.len() && views[g].items[k] == i as usize;
        assert(crate::semantic_index::is_group(texts, views[g]));
        assert(texts[views[g].items[k] as int] == views[g].key);
        assert(groups@[g].items@.contains(i as usize));
    }
    assert forall|g: int, k: int|
        0 <= g < groups@.len() && 0 <= k < groups@[g].items@.len() implies (
    #[trigger] groups@[g].items@[k]) < keys@.len() && keys@[groups@[g].items@[k] as int]@
        == groups@[g].key@ by {
        assert(crate::semantic_index::is_group(texts, views[g]));
        assert(views[g].items[k] < texts.len());
    }
    assert forall|g: int, k: int, l: int|
        0 <= g < groups@.len() && 0 <= k < l < groups@[g].items@.len() implies (
    #[trigger] groups@[g].items@[k]) < (#[trigger] groups@[g].items@[l]) by {
        assert(crate::semantic_index::is_group(texts, views[g]));
        assert(views[g].items[k] < views[g].items[l]);
    }
    assert forall|g: int, h: int| 0 <= g < h < groups@.len() implies (#[trigger] groups@[g]).key@ != (
    #[trigger] groups@[h]).key@ && groups@[g].items@.len() > 0 && groups@[h].items@.len() > 0
        && groups@[g].items@[0] < groups@[h].items@[0] by {
        assert(crate::semantic_index::is_group(texts, views[g]));
        assert(crate::semantic_index::is_group(texts, views[h]));
        assert(views[g].key != views[h].key);
    }
}

} // verus!
