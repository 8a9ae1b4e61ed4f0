//! Encoding an index, and what holds between the encoded and the read index.

use vstd::prelude::*;
use vstd::string::*;
use vstd::utf8::*;

use crate::bytes::{
    law_le_roundtrip, le_bytes, le_value, lemma_le_bytes_len, lemma_le_limits, push_le,
};
use crate::failure::{caused_failure, plain_failure, Failure, FailureView};
use crate::index::{
    embedding_value, fingerprint_map, index_contents, index_fingerprints, short_embedding,
    take_bytes, take_embedding, take_entry, take_header, take_number, take_record, take_records,
    take_text, validated_header, HeaderView, IndexErrorView, RecordView, INDEX_MAGIC,
    MAX_INDEX_STRING_BYTES,
};
use crate::search::BuildEntry;
use crate::text;

verus! {

/// A text with its length in bytes before it.
pub open spec fn text_bytes(text: Seq<char>) -> Seq<u8> {
    le_bytes(encode_utf8(text).len(), 4) + encode_utf8(text)
}

/// The bytes of an embedding.
pub open spec fn embedding_bytes(embedding: Seq<u32>) -> Seq<u8>
    decreases embedding.len(),
{
    if embedding.len() == 0 {
        Seq::empty()
    } else {
        embedding_bytes(embedding.drop_last()) + le_bytes(embedding.last() as nat, 4)
    }
}

/// The bytes of one entry.
pub open spec fn record_bytes(record: RecordView) -> Seq<u8> {
    text_bytes(record.key) + le_bytes(record.fingerprint as nat, 8) + embedding_bytes(
        record.embedding,
    )
}

/// The bytes of all entries.
pub open spec fn records_bytes(records: Seq<RecordView>) -> Seq<u8>
    decreases records.len(),
{
    if records.len() == 0 {
        Seq::empty()
    } else {
        records_bytes(records.drop_last()) + record_bytes(records.last())
    }
}

/// The bytes of a header.
pub open spec fn header_bytes(header: HeaderView) -> Seq<u8> {
    INDEX_MAGIC@ + le_bytes(header.dimensions as nat, 4) + text_bytes(header.model) + le_bytes(
        header.fingerprint as nat,
        8,
    ) + le_bytes(header.count as nat, 8)
}

/// The bytes of an index.
pub open spec fn index_bytes(header: HeaderView, records: Seq<RecordView>) -> Seq<u8> {
    header_bytes(header) + records_bytes(records)
}

/// The records of encoded catalog entries.
pub open spec fn encoded_records(entries: Seq<(BuildEntry, Vec<u32>)>) -> Seq<RecordView> {
    Seq::new(
        entries.len(),
        |i: int|
            RecordView {
                key: entries[i].0.key@,
                fingerprint: entries[i].0.fingerprint,
                embedding: entries[i].1@,
            },
    )
}

/// The failure of a number that the format cannot hold.
pub open spec fn limit_failure(field: Seq<char>) -> FailureView {
    plain_failure(field + " exceeds format limit"@)
}

/// Why an entry cannot be written.
pub open spec fn record_fault(record: RecordView, dimensions: nat) -> Option<FailureView> {
    if encode_utf8(record.key).len() > MAX_INDEX_STRING_BYTES {
        Some(limit_failure("semantic index key length"@))
    } else if record.embedding.len() != dimensions {
        Some(
            plain_failure(
                "semantic index embedding for "@ + record.key + " has "@ + text::decimal_text(
                    record.embedding.len(),
                ) + " dimensions, expected "@ + text::decimal_text(dimensions),
            ),
        )
    } else {
        None
    }
}

/// Why the first entry that cannot be written cannot.
pub open spec fn records_fault(records: Seq<RecordView>, dimensions: nat) -> Option<FailureView>
    decreases records.len(),
{
    if records.len() == 0 {
        None
    } else {
        match record_fault(records[0], dimensions) {
            Some(fault) => Some(fault),
            None => records_fault(records.drop_first(), dimensions),
        }
    }
}

/// The bytes that are written for an index, or why none are.
pub open spec fn encoded_index(
    model: Seq<char>,
    fingerprint: u64,
    records: Seq<RecordView>,
    dimensions: nat,
) -> Result<Seq<u8>, FailureView> {
    if dimensions > u32::MAX {
        Err(
            caused_failure(
                "semantic index dimensions"@ + " exceeds format limit"@,
                "out of range integral type conversion attempted"@,
            ),
        )
    } else if encode_utf8(model).len() > MAX_INDEX_STRING_BYTES {
        Err(limit_failure("semantic index model length"@))
    } else {
        match records_fault(records, dimensions) {
            Some(fault) => Err(fault),
            None => Ok(
                index_bytes(
                    HeaderView {
                        dimensions: dimensions as u32,
                        model,
                        fingerprint,
                        count: records.len() as u64,
                    },
                    records,
                ),
            ),
        }
    }
}

/// A number that must fit the four bytes that the format gives it.
pub fn index_u32(value: usize, field: &str) -> (number: Result<u32, Failure>)
    ensures
        match number {
            Ok(number) => value <= u32::MAX && number == value,
            Err(failure) => value > u32::MAX && failure@ == caused_failure(
                field@ + " exceeds format limit"@,
                "out of range integral type conversion attempted"@,
            ),
        },
{
    if value as u64 > u32::MAX as u64 {
        let message = text::join(field, " exceeds format limit");
        return Err(
            Failure::caused(
                message.as_str(),
                "out of range integral type conversion attempted",
            ),
        );
    }
    Ok(value as u32)
}

/// The length of a text that the format can hold.
pub fn index_string_length(value: usize, field: &str) -> (length: Result<u32, Failure>)
    ensures
        match length {
            Ok(length) => value <= MAX_INDEX_STRING_BYTES && length == value,
            Err(failure) => value > MAX_INDEX_STRING_BYTES && failure@ == limit_failure(field@),
        },
{
    if value > MAX_INDEX_STRING_BYTES {
        return Err(Failure::plain(text::join(field, " exceeds format limit").as_str()));
    }
    index_u32(value, field)
}

fn wrong_size(key: &str, found: usize, expected: usize) -> (failure: Failure)
    ensures
        failure@ == plain_failure(
            "semantic index embedding for "@ + key@ + " has "@ + text::decimal_text(found as nat)
                + " dimensions, expected "@ + text::decimal_text(expected as nat),
        ),
{
    let named = text::join("semantic index embedding for ", key);
    let counted = text::join(
        text::join(named.as_str(), " has ").as_str(),
        text::decimal(found as u64).as_str(),
    );
    let message = text::join(
        text::join(counted.as_str(), " dimensions, expected ").as_str(),
        text::decimal(expected as u64).as_str(),
    );
    Failure::plain(message.as_str())
}

fn push_bytes(output: &mut Vec<u8>, bytes: &[u8])
    ensures
        final(output)@ == old(output)@ + bytes@,
{
    output.extend_from_slice(bytes);
    assert(output@ =~= old(output)@ + bytes@);
}

fn push_record(output: &mut Vec<u8>, entry: &BuildEntry, embedding: &Vec<u32>)
    requires
        encode_utf8(entry.key@).len() <= MAX_INDEX_STRING_BYTES,
    ensures
        final(output)@ == old(output)@ + record_bytes(
            RecordView { key: entry.key@, fingerprint: entry.fingerprint, embedding: embedding@ },
        ),
{
    let key = entry.key.as_str().as_bytes();
    push_le(output, key.len() as u64, 4);
    push_bytes(output, key);
    push_le(output, entry.fingerprint, 8);
    let ghost start = output@;
    let mut position: usize = 0;
    assert(embedding@.take(0) =~= Seq::<u32>::empty());
    assert(start + embedding_bytes(embedding@.take(0)) =~= start);
    while position < embedding.len()
        invariant
            position <= embedding@.len(),
            output@ == start + embedding_bytes(embedding@.take(position as int)),
        decreases embedding@.len() - position,
    {
        push_le(output, embedding[position] as u64, 4);
        proof {
            let next = embedding@.take(position + 1);
            assert(next.drop_last() =~= embedding@.take(position as int));
            assert(output@ =~= start + embedding_bytes(next));
        }
        position = position + 1;
    }
    proof {
        assert(embedding@.take(position as int) =~= embedding@);
        assert(output@ =~= old(output)@ + record_bytes(
            RecordView { key: entry.key@, fingerprint: entry.fingerprint, embedding: embedding@ },
        ));
    }
}

/// Encodes an index over catalog entries and their embeddings.
pub fn encode_index(
    model: &str,
    fingerprint: u64,
    entries: &[(BuildEntry, Vec<u32>)],
    dimensions: usize,
) -> (encoded: Result<Vec<u8>, Failure>)
    ensures
        match (
            encoded,
            encoded_index(model@, fingerprint, encoded_records(entries@), dimensions as nat),
        ) {
            (Ok(bytes), Ok(expected)) => bytes@ == expected,
            (Err(failure), Err(expected)) => failure@ == expected,
            _ => false,
        },
{
    let encoded_dimensions: u32 = match index_u32(dimensions, "semantic index dimensions") {
        Ok(encoded_dimensions) => encoded_dimensions,
        Err(failure) => return Err(failure),
    };
    let model_bytes = model.as_bytes();
    let model_length: u32 = match index_string_length(
        model_bytes.len(),
        "semantic index model length",
    ) {
        Ok(model_length) => model_length,
        Err(failure) => return Err(failure),
    };
    let ghost records = encoded_records(entries@);
    let mut position: usize = 0;
    assert(records.skip(0) =~= records);
    while position < entries.len()
        invariant
            records == encoded_records(entries@),
            position <= entries@.len(),
            dimensions <= u32::MAX,
            encode_utf8(model@).len() <= MAX_INDEX_STRING_BYTES,
            records_fault(records, dimensions as nat) == records_fault(
                records.skip(position as int),
                dimensions as nat,
            ),
            forall|i: int|
                0 <= i < position ==> encode_utf8(#[trigger] entries@[i].0.key@).len()
                    <= MAX_INDEX_STRING_BYTES,
        decreases entries@.len() - position,
    {
        proof {
            assert(records.skip(position as int)[0] == records[position as int]);
            assert(records.skip(position as int).drop_first() =~= records.skip(position + 1));
        }
        let entry = &entries[position];
        if let Err(failure) = index_string_length(
            entry.0.key.as_str().as_bytes().len(),
            "semantic index key length",
        ) {
            return Err(failure);
        }
        if entry.1.len() != dimensions {
            return Err(wrong_size(entry.0.key.as_str(), entry.1.len(), dimensions));
        }
        position = position + 1;
    }
    let mut output: Vec<u8> = Vec::new();
    push_bytes(&mut output, INDEX_MAGIC.as_slice());
    push_le(&mut output, encoded_dimensions as u64, 4);
    push_le(&mut output, model_length as u64, 4);
    push_bytes(&mut output, model_bytes);
    push_le(&mut output, fingerprint, 8);
    push_le(&mut output, entries.len() as u64, 8);
    let ghost header = HeaderView {
        dimensions: encoded_dimensions,
        model: model@,
        fingerprint,
        count: entries.len() as u64,
    };
    assert(output@ =~= header_bytes(header));
    position = 0;
    assert(records.take(0) =~= Seq::<RecordView>::empty());
    assert(output@ =~= header_bytes(header) + records_bytes(records.take(0)));
    while position < entries.len()
        invariant
            records == encoded_records(entries@),
            position <= entries@.len(),
            output@ == header_bytes(header) + records_bytes(records.take(position as int)),
            forall|i: int|
                0 <= i < entries@.len() ==> encode_utf8(#[trigger] entries@[i].0.key@).len()
                    <= MAX_INDEX_STRING_BYTES,
        decreases entries@.len() - position,
    {
        let entry = &entries[position];
        push_record(&mut output, &entry.0, &entry.1);
        proof {
            let next = records.take(position + 1);
            assert(next.drop_last() =~= records.take(position as int));
            assert(next.last() == records[position as int]);
            assert(output@ =~= header_bytes(header) + records_bytes(next));
        }
        position = position + 1;
    }
    assert(records.take(position as int) =~= records);
    assert(records_fault(records.skip(entries@.len() as int), dimensions as nat) is None);
    Ok(output)
}

/// Where the fingerprint of an index stands: beside it, under its name with one more ending.
pub fn fingerprint_path(index: &str) -> (path: String)
    ensures
        path@ == index@ + ".fingerprint"@,
{
    text::join(index, ".fingerprint")
}

proof fn lemma_take_number(number: nat, width: nat, tail: Seq<u8>)
    requires
        width == 4 && number <= u32::MAX || width == 8 && number <= u64::MAX,
    ensures
        take_number(le_bytes(number, width) + tail, width) == (
            Ok::<nat, IndexErrorView>(number),
            tail,
        ),
{
    let field = le_bytes(number, width);
    lemma_le_limits();
    lemma_le_bytes_len(number, width);
    law_le_roundtrip(number, width);
    assert((field + tail).take(width as int) =~= field);
    assert((field + tail).skip(width as int) =~= tail);
}

proof fn lemma_take_text(text: Seq<char>, tail: Seq<u8>)
    requires
        encode_utf8(text).len() <= MAX_INDEX_STRING_BYTES,
    ensures
        take_text(encode_utf8(text) + tail, encode_utf8(text).len()) == (
            Ok::<Seq<char>, IndexErrorView>(text),
            tail,
        ),
{
    let field = encode_utf8(text);
    encode_utf8_valid_utf8(text);
    encode_utf8_decode_utf8(text);
    assert((field + tail).take(field.len() as int) =~= field);
    assert((field + tail).skip(field.len() as int) =~= tail);
}

proof fn lemma_take_header(header: HeaderView, tail: Seq<u8>)
    requires
        header.dimensions > 0,
        0 < encode_utf8(header.model).len() <= MAX_INDEX_STRING_BYTES,
    ensures
        take_header(header_bytes(header) + tail) == (
            Ok::<HeaderView, IndexErrorView>(header),
            tail,
        ),
{
    let model = encode_utf8(header.model);
    let after_fingerprint = le_bytes(header.count as nat, 8) + tail;
    let after_model = le_bytes(header.fingerprint as nat, 8) + after_fingerprint;
    let after_length = model + after_model;
    let after_dimensions = le_bytes(model.len(), 4) + after_length;
    let after_magic = le_bytes(header.dimensions as nat, 4) + after_dimensions;
    let bytes = header_bytes(header) + tail;
    assert(bytes =~= INDEX_MAGIC@ + after_magic);
    assert(bytes.take(8) =~= INDEX_MAGIC@);
    assert(bytes.skip(8) =~= after_magic);
    lemma_take_number(header.dimensions as nat, 4, after_dimensions);
    lemma_take_number(model.len(), 4, after_length);
    lemma_take_text(header.model, after_model);
    lemma_take_number(header.fingerprint as nat, 8, after_fingerprint);
    lemma_take_number(header.count as nat, 8, tail);
}

proof fn lemma_take_embedding(embedding: Seq<u32>, tail: Seq<u8>, shortage: IndexErrorView)
    ensures
        embedding_bytes(embedding).len() == 4 * embedding.len(),
        take_embedding(embedding_bytes(embedding) + tail, embedding.len(), shortage) == (
            Ok::<Seq<u32>, IndexErrorView>(embedding),
            tail,
        ),
    decreases embedding.len(),
{
    let bytes = embedding_bytes(embedding);
    if embedding.len() > 0 {
        let front = embedding.drop_last();
        let last = le_bytes(embedding.last() as nat, 4);
        lemma_take_embedding(front, last + tail, shortage);
        lemma_le_bytes_len(embedding.last() as nat, 4);
        lemma_le_limits();
        law_le_roundtrip(embedding.last() as nat, 4);
        assert(bytes + tail =~= embedding_bytes(front) + (last + tail));
        let read = Seq::new(
            embedding.len(),
            |position: int| embedding_value(bytes + tail, position),
        );
        assert((bytes + tail).subrange(4 * front.len() as int, (4 * front.len() + 4) as int) =~= last);
        assert forall|i: int| 0 <= i < embedding.len() implies read[i] == embedding[i] by {
            if i < front.len() {
                assert(Seq::new(
                    front.len(),
                    |position: int| embedding_value(bytes + tail, position),
                )[i] == front[i]);
            }
        }
        assert(read =~= embedding);
    } else {
        assert(Seq::new(0, |position: int| embedding_value(bytes + tail, position)) =~= embedding);
    }
    assert((bytes + tail).skip(4 * embedding.len() as int) =~= tail);
}

/// Whether an index of the given dimensions can hold an entry.
pub open spec fn writable(record: RecordView, dimensions: nat) -> bool {
    &&& encode_utf8(record.key).len() <= MAX_INDEX_STRING_BYTES
    &&& record.embedding.len() == dimensions
}

proof fn lemma_take_record(
    record: RecordView,
    dimensions: nat,
    tail: Seq<u8>,
    shortage: IndexErrorView,
)
    requires
        writable(record, dimensions),
    ensures
        take_record(record_bytes(record) + tail, dimensions, shortage) == (
            Ok::<RecordView, IndexErrorView>(record),
            tail,
        ),
{
    let key = encode_utf8(record.key);
    let after_fingerprint = embedding_bytes(record.embedding) + tail;
    let after_key = le_bytes(record.fingerprint as nat, 8) + after_fingerprint;
    let after_length = key + after_key;
    assert(record_bytes(record) + tail =~= le_bytes(key.len(), 4) + after_length);
    lemma_take_number(key.len(), 4, after_length);
    lemma_take_text(record.key, after_key);
    lemma_take_number(record.fingerprint as nat, 8, after_fingerprint);
    lemma_take_embedding(record.embedding, tail, shortage);
}

proof fn lemma_records_bytes_front(records: Seq<RecordView>)
    requires
        records.len() > 0,
    ensures
        records_bytes(records) == record_bytes(records[0]) + records_bytes(records.drop_first()),
    decreases records.len(),
{
    if records.len() == 1 {
        assert(records.drop_last() =~= Seq::<RecordView>::empty());
        assert(records.drop_first() =~= Seq::<RecordView>::empty());
        assert(records_bytes(records) =~= record_bytes(records[0]) + records_bytes(
            records.drop_first(),
        ));
    } else {
        lemma_records_bytes_front(records.drop_last());
        assert(records.drop_last().drop_first() =~= records.drop_first().drop_last());
        assert(records_bytes(records) =~= record_bytes(records[0]) + records_bytes(
            records.drop_first(),
        ));
    }
}

proof fn lemma_take_records(
    records: Seq<RecordView>,
    dimensions: nat,
    tail: Seq<u8>,
    shortage: IndexErrorView,
)
    requires
        forall|i: int| 0 <= i < records.len() ==> writable(#[trigger] records[i], dimensions),
    ensures
        take_records(records_bytes(records) + tail, dimensions, records.len(), shortage) == (
            Ok::<Seq<RecordView>, IndexErrorView>(records),
            tail,
        ),
    decreases records.len(),
{
    if records.len() == 0 {
        assert(records_bytes(records) + tail =~= tail);
        assert(records =~= Seq::<RecordView>::empty());
    } else {
        let others = records.drop_first();
        lemma_records_bytes_front(records);
        assert(records_bytes(records) + tail =~= record_bytes(records[0]) + (records_bytes(others)
            + tail));
        lemma_take_record(records[0], dimensions, records_bytes(others) + tail, shortage);
        lemma_take_records(others, dimensions, tail, shortage);
        assert(seq![records[0]] + others =~= records);
    }
}

/// An index is read back as it was written: the same header, the same entries in the same order
/// with the same embedding bits, and nothing left over.
pub proof fn law_index_roundtrip(
    header: HeaderView,
    records: Seq<RecordView>,
    shortage: IndexErrorView,
)
    requires
        header.dimensions > 0,
        0 < encode_utf8(header.model).len() <= MAX_INDEX_STRING_BYTES,
        header.count == records.len(),
        forall|i: int|
            0 <= i < records.len() ==> writable(#[trigger] records[i], header.dimensions as nat),
    ensures
        index_contents(index_bytes(header, records), shortage) == Ok::<
            (HeaderView, Seq<RecordView>),
            IndexErrorView,
        >((header, records)),
{
    lemma_take_header(header, records_bytes(records));
    lemma_take_records(records, header.dimensions as nat, Seq::empty(), shortage);
    assert(records_bytes(records) + Seq::<u8>::empty() =~= records_bytes(records));
}

proof fn lemma_records_fault(records: Seq<RecordView>, dimensions: nat)
    ensures
        records_fault(records, dimensions) is None <==> forall|i: int|
            0 <= i < records.len() ==> writable(#[trigger] records[i], dimensions),
    decreases records.len(),
{
    if records.len() > 0 {
        lemma_records_fault(records.drop_first(), dimensions);
        assert forall|i: int|
            0 <= i < records.len() && records_fault(records, dimensions) is None implies writable(
            #[trigger] records[i],
            dimensions,
        ) by {
            if i > 0 {
                assert(records[i] == records.drop_first()[i - 1]);
            }
        }
        if forall|i: int| 0 <= i < records.len() ==> writable(#[trigger] records[i], dimensions) {
            assert(writable(records[0], dimensions));
            assert forall|i: int| 0 <= i < records.drop_first().len() implies writable(
                #[trigger] records.drop_first()[i],
                dimensions,
            ) by {
                assert(records.drop_first()[i] == records[i + 1]);
            }
        }
    }
}

/// What the writer encodes for a named model with at least one dimension, the reader decodes.
pub proof fn law_written_index_reads_back(
    model: Seq<char>,
    fingerprint: u64,
    records: Seq<RecordView>,
    dimensions: nat,
    shortage: IndexErrorView,
)
    requires
        dimensions > 0,
        encode_utf8(model).len() > 0,
        records.len() <= u64::MAX,
        encoded_index(model, fingerprint, records, dimensions) is Ok,
    ensures
        index_contents(encoded_index(model, fingerprint, records, dimensions)->Ok_0, shortage)
            == Ok::<(HeaderView, Seq<RecordView>), IndexErrorView>(
            (
                HeaderView {
                    dimensions: dimensions as u32,
                    model,
                    fingerprint,
                    count: records.len() as u64,
                },
                records,
            ),
        ),
{
    lemma_records_fault(records, dimensions);
    law_index_roundtrip(
        HeaderView {
            dimensions: dimensions as u32,
            model,
            fingerprint,
            count: records.len() as u64,
        },
        records,
        shortage,
    );
}

proof fn lemma_bytes_extend(bytes: Seq<u8>, tail: Seq<u8>, count: nat)
    requires
        take_bytes(bytes, count).0 is Ok,
    ensures
        take_bytes(bytes + tail, count) == (
            take_bytes(bytes, count).0,
            take_bytes(bytes, count).1 + tail,
        ),
{
    assert((bytes + tail).take(count as int) =~= bytes.take(count as int));
    assert((bytes + tail).skip(count as int) =~= bytes.skip(count as int) + tail);
}

proof fn lemma_text_extend(bytes: Seq<u8>, tail: Seq<u8>, length: nat)
    requires
        take_text(bytes, length).0 is Ok,
    ensures
        take_text(bytes + tail, length) == (
            take_text(bytes, length).0,
            take_text(bytes, length).1 + tail,
        ),
{
    lemma_bytes_extend(bytes, tail, length);
}

proof fn lemma_header_extend(bytes: Seq<u8>, tail: Seq<u8>)
    requires
        take_header(bytes).0 is Ok,
    ensures
        take_header(bytes + tail) == (take_header(bytes).0, take_header(bytes).1 + tail),
{
    let after_magic = take_bytes(bytes, 8).1;
    let after_dimensions = take_bytes(after_magic, 4).1;
    let after_length = take_bytes(after_dimensions, 4).1;
    let length = le_value(take_bytes(after_dimensions, 4).0->Ok_0);
    let after_model = take_text(after_length, length).1;
    let after_fingerprint = take_bytes(after_model, 8).1;
    lemma_bytes_extend(bytes, tail, 8);
    lemma_bytes_extend(after_magic, tail, 4);
    lemma_bytes_extend(after_dimensions, tail, 4);
    lemma_text_extend(after_length, tail, length);
    lemma_bytes_extend(after_model, tail, 8);
    lemma_bytes_extend(after_fingerprint, tail, 8);
}

proof fn lemma_record_extend(
    bytes: Seq<u8>,
    tail: Seq<u8>,
    dimensions: nat,
    shortage: IndexErrorView,
)
    requires
        take_record(bytes, dimensions, shortage).0 is Ok,
    ensures
        take_record(bytes + tail, dimensions, shortage) == (
            take_record(bytes, dimensions, shortage).0,
            take_record(bytes, dimensions, shortage).1 + tail,
        ),
{
    let after_length = take_bytes(bytes, 4).1;
    let length = le_value(take_bytes(bytes, 4).0->Ok_0);
    let after_key = take_text(after_length, length).1;
    let body = take_bytes(after_key, 8).1;
    lemma_bytes_extend(bytes, tail, 4);
    lemma_text_extend(after_length, tail, length);
    lemma_bytes_extend(after_key, tail, 8);
    assert(take_entry(bytes).1 == body);
    assert((body + tail).skip(4 * dimensions as int) =~= body.skip(4 * dimensions as int) + tail);
    let short = Seq::new(dimensions, |position: int| embedding_value(body, position));
    let long = Seq::new(dimensions, |position: int| embedding_value(body + tail, position));
    assert forall|i: int| 0 <= i < dimensions implies short[i] == long[i] by {
        assert((body + tail).subrange(4 * i, 4 * i + 4) =~= body.subrange(4 * i, 4 * i + 4));
    }
    assert(short =~= long);
}

proof fn lemma_records_extend(
    bytes: Seq<u8>,
    tail: Seq<u8>,
    dimensions: nat,
    count: nat,
    shortage: IndexErrorView,
)
    requires
        take_records(bytes, dimensions, count, shortage).0 is Ok,
    ensures
        take_records(bytes + tail, dimensions, count, shortage) == (
            take_records(bytes, dimensions, count, shortage).0,
            take_records(bytes, dimensions, count, shortage).1 + tail,
        ),
    decreases count,
{
    if count > 0 {
        lemma_record_extend(bytes, tail, dimensions, shortage);
        lemma_records_extend(
            take_record(bytes, dimensions, shortage).1,
            tail,
            dimensions,
            (count - 1) as nat,
            shortage,
        );
    }
}

/// An index with anything after it is no index: the trailing data is refused.
pub proof fn law_trailing_data_refused(bytes: Seq<u8>, tail: Seq<u8>, shortage: IndexErrorView)
    requires
        index_contents(bytes, shortage) is Ok,
        tail.len() > 0,
    ensures
        index_contents(bytes + tail, shortage) == Err::<
            (HeaderView, Seq<RecordView>),
            IndexErrorView,
        >(crate::index::invalid_data("semantic index has trailing data"@)),
{
    lemma_header_extend(bytes, tail);
    let (header, body) = take_header(bytes);
    lemma_records_extend(
        body,
        tail,
        header->Ok_0.dimensions as nat,
        header->Ok_0.count as nat,
        shortage,
    );
}

/// No proper prefix of an index is an index.
pub proof fn law_truncated_index_refused(bytes: Seq<u8>, length: int, shortage: IndexErrorView)
    requires
        index_contents(bytes, shortage) is Ok,
        0 <= length < bytes.len(),
    ensures
        index_contents(bytes.take(length), shortage) is Err,
{
    if index_contents(bytes.take(length), shortage) is Ok {
        law_trailing_data_refused(bytes.take(length), bytes.skip(length), shortage);
        assert(bytes.take(length) + bytes.skip(length) =~= bytes);
    }
}

proof fn lemma_shortage_only_in_failure(
    bytes: Seq<u8>,
    dimensions: nat,
    count: nat,
    first: IndexErrorView,
    second: IndexErrorView,
)
    ensures
        take_records(bytes, dimensions, count, first).0 is Ok ==> take_records(
            bytes,
            dimensions,
            count,
            second,
        ) == take_records(bytes, dimensions, count, first),
    decreases count,
{
    if count > 0 && take_record(bytes, dimensions, first).0 is Ok {
        lemma_shortage_only_in_failure(
            take_record(bytes, dimensions, first).1,
            dimensions,
            (count - 1) as nat,
            first,
            second,
        );
    }
}

/// An index that was walked through completely is one that can be read entry by entry, with the same
/// header, at least one entry, and as many as the header says.
pub proof fn law_validated_index_reads(bytes: Seq<u8>, shortage: IndexErrorView)
    ensures
        validated_header(bytes) matches Ok(header) ==> header.count > 0 && (index_contents(
            bytes,
            shortage,
        ) matches Ok(contents) && contents.0 == header && contents.1.len() == header.count),
{
    if let (Ok(header), body) = take_header(bytes) {
        lemma_shortage_only_in_failure(
            body,
            header.dimensions as nat,
            header.count as nat,
            short_embedding(),
            shortage,
        );
        lemma_record_count(body, header.dimensions as nat, header.count as nat, shortage);
    }
}

proof fn lemma_record_count(
    bytes: Seq<u8>,
    dimensions: nat,
    count: nat,
    shortage: IndexErrorView,
)
    ensures
        take_records(bytes, dimensions, count, shortage).0 matches Ok(records) ==> records.len()
            == count,
    decreases count,
{
    if count > 0 {
        lemma_record_count(
            take_record(bytes, dimensions, shortage).1,
            dimensions,
            (count - 1) as nat,
            shortage,
        );
    }
}

/// The fingerprints that are read of a written index are those that were written, the last of each
/// key.
pub proof fn law_written_fingerprints_read_back(
    model: Seq<char>,
    fingerprint: u64,
    records: Seq<RecordView>,
    dimensions: nat,
)
    requires
        dimensions > 0,
        encode_utf8(model).len() > 0,
        records.len() <= usize::MAX,
        encoded_index(model, fingerprint, records, dimensions) is Ok,
    ensures
        index_fingerprints(
            encoded_index(model, fingerprint, records, dimensions)->Ok_0,
            Ok(()),
        ) == Ok::<Map<Seq<char>, u64>, IndexErrorView>(fingerprint_map(records)),
{
    law_written_index_reads_back(model, fingerprint, records, dimensions, short_embedding());
}

} // verus!
