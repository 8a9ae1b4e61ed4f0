//! The embedding index: its binary format, the reader and the writer.

use vstd::hash_map::StringHashMap;
use vstd::prelude::*;
use vstd::slice::slice_subrange;
use vstd::string::*;
use vstd::utf8::*;

use crate::bytes::{le_limit, le_value, read_le};
use crate::memory::{fingerprint_room, reserve_exact, room_view, Room};
use crate::text;

verus! {

/// The bytes `SKWDSEM3`, with which every index begins.
pub const INDEX_MAGIC: [u8; 8] = [0x53, 0x4b, 0x57, 0x44, 0x53, 0x45, 0x4d, 0x33];

/// The longest model name or key, in bytes.
pub const MAX_INDEX_STRING_BYTES: usize = 1_048_576;

/// What an index says of itself before its entries.
#[derive(Debug, Clone, PartialEq, Eq)]
pub struct IndexHeader {
    pub dimensions: u32,
    pub model: String,
    pub fingerprint: u64,
    pub count: u64,
}

/// The value of an [`IndexHeader`].
pub struct HeaderView {
    pub dimensions: u32,
    pub model: Seq<char>,
    pub fingerprint: u64,
    pub count: u64,
}

impl View for IndexHeader {
    type V = HeaderView;

    open spec fn view(&self) -> HeaderView {
        HeaderView {
            dimensions: self.dimensions,
            model: self.model@,
            fingerprint: self.fingerprint,
            count: self.count,
        }
    }
}

/// For how many elements memory is asked: the numbers of one embedding, the entries, and the numbers
/// of all embeddings; where there are more than can be counted, nothing is asked for.
#[derive(Debug, Clone, Copy, PartialEq, Eq, Structural)]
pub struct RoomRequest {
    pub embedding: usize,
    pub entries: Option<usize>,
    pub values: Option<usize>,
}

/// The memory that an index with a header takes.
pub open spec fn requested_room(header: HeaderView) -> RoomRequest {
    RoomRequest {
        embedding: header.dimensions as usize,
        entries: if header.count <= usize::MAX {
            Some(header.count as usize)
        } else {
            None
        },
        values: if header.count * header.dimensions <= usize::MAX {
            Some((header.count * header.dimensions) as usize)
        } else {
            None
        },
    }
}

/// Finds how much memory an index with a header takes.
pub fn room_request(header: &IndexHeader) -> (request: RoomRequest)
    ensures
        request == requested_room(header@),
{
    let total: u128 = {
        assert(header.count * header.dimensions <= u64::MAX * u32::MAX) by (nonlinear_arith)
            requires
                header.count <= u64::MAX,
                header.dimensions <= u32::MAX,
        ;
        header.count as u128 * header.dimensions as u128
    };
    RoomRequest {
        embedding: header.dimensions as usize,
        entries: if header.count <= usize::MAX as u64 {
            Some(header.count as usize)
        } else {
            None
        },
        values: if total <= usize::MAX as u128 {
            Some(total as usize)
        } else {
            None
        },
    }
}

/// An index entry without its embedding.
#[derive(Debug, Clone, PartialEq, Eq)]
pub struct IndexEntry {
    pub key: String,
    pub fingerprint: u64,
}

/// The value of an [`IndexEntry`].
pub struct EntryView {
    pub key: Seq<char>,
    pub fingerprint: u64,
}

impl View for IndexEntry {
    type V = EntryView;

    open spec fn view(&self) -> EntryView {
        EntryView { key: self.key@, fingerprint: self.fingerprint }
    }
}

/// An index entry with its embedding, each value by its bit pattern.
pub struct RecordView {
    pub key: Seq<char>,
    pub fingerprint: u64,
    pub embedding: Seq<u32>,
}

impl RecordView {
    /// The entry without its embedding.
    pub open spec fn entry(self) -> EntryView {
        EntryView { key: self.key, fingerprint: self.fingerprint }
    }
}

/// How an index failed to read.
#[derive(Debug, Clone, Copy, PartialEq, Eq, Structural)]
pub enum IndexErrorKind {
    /// The bytes end too early.
    UnexpectedEof,
    /// The bytes say something that an index cannot say.
    InvalidData,
}

/// An index that cannot be read.
#[derive(Debug, Clone)]
pub struct IndexError {
    pub kind: IndexErrorKind,
    pub message: String,
}

/// The value of an [`IndexError`].
pub struct IndexErrorView {
    pub kind: IndexErrorKind,
    pub message: Seq<char>,
}

impl View for IndexError {
    type V = IndexErrorView;

    open spec fn view(&self) -> IndexErrorView {
        IndexErrorView { kind: self.kind, message: self.message@ }
    }
}

impl IndexError {
    /// How the index failed to read.
    pub fn kind(&self) -> (kind: IndexErrorKind)
        ensures
            kind == self@.kind,
    {
        self.kind
    }
}

/// The error of bytes that an index cannot hold.
pub open spec fn invalid_data(message: Seq<char>) -> IndexErrorView {
    IndexErrorView { kind: IndexErrorKind::InvalidData, message }
}

/// The error of bytes that end within a field.
pub open spec fn short_field() -> IndexErrorView {
    IndexErrorView {
        kind: IndexErrorKind::UnexpectedEof,
        message: "failed to fill whole buffer"@,
    }
}

/// The error of bytes that end within an embedding that is skipped.
pub open spec fn short_embedding() -> IndexErrorView {
    IndexErrorView {
        kind: IndexErrorKind::UnexpectedEof,
        message: "semantic index embedding is truncated"@,
    }
}

fn invalid(message: &str) -> (error: IndexError)
    ensures
        error@ == invalid_data(message@),
{
    IndexError { kind: IndexErrorKind::InvalidData, message: message.to_owned() }
}

/// The next `count` bytes and what follows them. Where fewer are left, all of them are consumed.
pub open spec fn take_bytes(bytes: Seq<u8>, count: nat) -> (
    Result<Seq<u8>, IndexErrorView>,
    Seq<u8>,
) {
    if bytes.len() < count {
        (Err(short_field()), Seq::empty())
    } else {
        (Ok(bytes.take(count as int)), bytes.skip(count as int))
    }
}

/// The next little-endian number of `width` bytes.
pub open spec fn take_number(bytes: Seq<u8>, width: nat) -> (
    Result<nat, IndexErrorView>,
    Seq<u8>,
) {
    match take_bytes(bytes, width) {
        (Ok(field), rest) => (Ok(le_value(field)), rest),
        (Err(error), rest) => (Err(error), rest),
    }
}

/// The next text of `length` bytes.
pub open spec fn take_text(bytes: Seq<u8>, length: nat) -> (
    Result<Seq<char>, IndexErrorView>,
    Seq<u8>,
) {
    if length > MAX_INDEX_STRING_BYTES {
        (Err(invalid_data("semantic index string size is invalid"@)), bytes)
    } else {
        match take_bytes(bytes, length) {
            (Ok(field), rest) => if valid_utf8(field) {
                (Ok(decode_utf8(field)), rest)
            } else {
                (Err(invalid_data(text::utf8_error_text(field))), rest)
            },
            (Err(error), rest) => (Err(error), rest),
        }
    }
}

/// The header at the start of an index, and the bytes after it.
pub open spec fn take_header(bytes: Seq<u8>) -> (Result<HeaderView, IndexErrorView>, Seq<u8>) {
    match take_bytes(bytes, 8) {
        (Err(error), rest) => (Err(error), rest),
        (Ok(magic), after_magic) => if magic != INDEX_MAGIC@ {
            (Err(invalid_data("unsupported semantic index"@)), after_magic)
        } else {
            match take_number(after_magic, 4) {
                (Err(error), rest) => (Err(error), rest),
                (Ok(dimensions), after_dimensions) => if dimensions == 0 {
                    (Err(invalid_data("semantic index dimensions are empty"@)), after_dimensions)
                } else {
                    match take_number(after_dimensions, 4) {
                        (Err(error), rest) => (Err(error), rest),
                        (Ok(length), after_length) => if length == 0 {
                            (Err(invalid_data("semantic index model is empty"@)), after_length)
                        } else {
                            take_header_tail(dimensions as u32, length, after_length)
                        },
                    }
                },
            }
        },
    }
}

/// The header from its model name on.
pub open spec fn take_header_tail(dimensions: u32, length: nat, bytes: Seq<u8>) -> (
    Result<HeaderView, IndexErrorView>,
    Seq<u8>,
) {
    match take_text(bytes, length) {
        (Err(error), rest) => (Err(error), rest),
        (Ok(model), after_model) => match take_number(after_model, 8) {
            (Err(error), rest) => (Err(error), rest),
            (Ok(fingerprint), after_fingerprint) => match take_number(after_fingerprint, 8) {
                (Err(error), rest) => (Err(error), rest),
                (Ok(count), rest) => (
                    Ok(
                        HeaderView {
                            dimensions,
                            model,
                            fingerprint: fingerprint as u64,
                            count: count as u64,
                        },
                    ),
                    rest,
                ),
            },
        },
    }
}

/// The key and fingerprint at the start of an entry, and the bytes after them.
pub open spec fn take_entry(bytes: Seq<u8>) -> (Result<EntryView, IndexErrorView>, Seq<u8>) {
    match take_number(bytes, 4) {
        (Err(error), rest) => (Err(error), rest),
        (Ok(length), after_length) => match take_text(after_length, length) {
            (Err(error), rest) => (Err(error), rest),
            (Ok(key), after_key) => match take_number(after_key, 8) {
                (Err(error), rest) => (Err(error), rest),
                (Ok(fingerprint), rest) => (
                    Ok(EntryView { key, fingerprint: fingerprint as u64 }),
                    rest,
                ),
            },
        },
    }
}

/// The value at `position` of an embedding.
pub open spec fn embedding_value(bytes: Seq<u8>, position: int) -> u32 {
    le_value(bytes.subrange(4 * position, 4 * position + 4)) as u32
}

/// The next `dimensions` values, and the bytes after them; `shortage` is the error of bytes that
/// end before.
pub open spec fn take_embedding(bytes: Seq<u8>, dimensions: nat, shortage: IndexErrorView) -> (
    Result<Seq<u32>, IndexErrorView>,
    Seq<u8>,
) {
    if bytes.len() < 4 * dimensions {
        (Err(shortage), Seq::empty())
    } else {
        (
            Ok(Seq::new(dimensions, |position: int| embedding_value(bytes, position))),
            bytes.skip(4 * dimensions as int),
        )
    }
}

/// The next entry with its embedding, and the bytes after it.
pub open spec fn take_record(bytes: Seq<u8>, dimensions: nat, shortage: IndexErrorView) -> (
    Result<RecordView, IndexErrorView>,
    Seq<u8>,
) {
    match take_entry(bytes) {
        (Err(error), rest) => (Err(error), rest),
        (Ok(entry), after_entry) => match take_embedding(after_entry, dimensions, shortage) {
            (Err(error), rest) => (Err(error), rest),
            (Ok(embedding), rest) => (
                Ok(RecordView { key: entry.key, fingerprint: entry.fingerprint, embedding }),
                rest,
            ),
        },
    }
}

/// The next `count` entries with their embeddings, and the bytes after them.
pub open spec fn take_records(
    bytes: Seq<u8>,
    dimensions: nat,
    count: nat,
    shortage: IndexErrorView,
) -> (Result<Seq<RecordView>, IndexErrorView>, Seq<u8>)
    decreases count,
{
    if count == 0 {
        (Ok(Seq::empty()), bytes)
    } else {
        match take_record(bytes, dimensions, shortage) {
            (Err(error), rest) => (Err(error), rest),
            (Ok(record), after_record) => match take_records(
                after_record,
                dimensions,
                (count - 1) as nat,
                shortage,
            ) {
                (Err(error), rest) => (Err(error), rest),
                (Ok(records), rest) => (Ok(seq![record] + records), rest),
            },
        }
    }
}

/// All that an index holds: its header and its entries, with nothing after them.
pub open spec fn index_contents(bytes: Seq<u8>, shortage: IndexErrorView) -> Result<
    (HeaderView, Seq<RecordView>),
    IndexErrorView,
> {
    match take_header(bytes) {
        (Err(error), _) => Err(error),
        (Ok(header), after_header) => index_body(header, after_header, shortage),
    }
}

/// All that an index holds, from the bytes after its header.
pub open spec fn index_body(
    header: HeaderView,
    bytes: Seq<u8>,
    shortage: IndexErrorView,
) -> Result<(HeaderView, Seq<RecordView>), IndexErrorView> {
    match take_records(bytes, header.dimensions as nat, header.count as nat, shortage) {
        (Err(error), _) => Err(error),
        (Ok(records), rest) => if rest.len() > 0 {
            Err(invalid_data("semantic index has trailing data"@))
        } else {
            Ok((header, records))
        },
    }
}

fn next_bytes<'a>(bytes: &'a [u8], count: usize) -> (taken: (Result<&'a [u8], IndexError>, &'a [u8]))
    ensures
        taken.1@ == take_bytes(bytes@, count as nat).1,
        match (taken.0, take_bytes(bytes@, count as nat).0) {
            (Ok(field), Ok(expected)) => field@ == expected,
            (Err(error), Err(expected)) => error@ == expected,
            _ => false,
        },
{
    if bytes.len() < count {
        let empty = slice_subrange(bytes, bytes.len(), bytes.len());
        assert(empty@ =~= Seq::<u8>::empty());
        let error = IndexError {
            kind: IndexErrorKind::UnexpectedEof,
            message: "failed to fill whole buffer".to_owned(),
        };
        return (Err(error), empty);
    }
    let field = slice_subrange(bytes, 0, count);
    let rest = slice_subrange(bytes, count, bytes.len());
    assert(field@ =~= bytes@.take(count as int));
    assert(rest@ =~= bytes@.skip(count as int));
    (Ok(field), rest)
}

fn next_number<'a>(bytes: &'a [u8], width: usize) -> (taken: (Result<u64, IndexError>, &'a [u8]))
    requires
        width <= 8,
    ensures
        taken.1@ == take_number(bytes@, width as nat).1,
        match (taken.0, take_number(bytes@, width as nat).0) {
            (Ok(number), Ok(expected)) => number == expected && number < le_limit(width as nat),
            (Err(error), Err(expected)) => error@ == expected,
            _ => false,
        },
{
    let (field, rest) = next_bytes(bytes, width);
    match field {
        Ok(field) => (Ok(read_le(field)), rest),
        Err(error) => (Err(error), rest),
    }
}

fn next_text<'a>(bytes: &'a [u8], length: u64) -> (taken: (Result<String, IndexError>, &'a [u8]))
    ensures
        taken.1@ == take_text(bytes@, length as nat).1,
        match (taken.0, take_text(bytes@, length as nat).0) {
            (Ok(value), Ok(expected)) => value@ == expected,
            (Err(error), Err(expected)) => error@ == expected,
            _ => false,
        },
{
    if length > MAX_INDEX_STRING_BYTES as u64 {
        return (Err(invalid("semantic index string size is invalid")), bytes);
    }
    let (field, rest) = next_bytes(bytes, length as usize);
    match field {
        Ok(field) => {
            let mut owned: Vec<u8> = Vec::new();
            owned.extend_from_slice(field);
            assert(owned@ =~= field@);
            match text::decode(owned) {
                Ok(value) => (Ok(value), rest),
                Err(message) => (Err(invalid(message.as_str())), rest),
            }
        },
        Err(error) => (Err(error), rest),
    }
}

fn next_header<'a>(bytes: &'a [u8]) -> (taken: (Result<IndexHeader, IndexError>, &'a [u8]))
    ensures
        taken.1@ == take_header(bytes@).1,
        match (taken.0, take_header(bytes@).0) {
            (Ok(header), Ok(expected)) => header@ == expected,
            (Err(error), Err(expected)) => error@ == expected,
            _ => false,
        },
{
    let (magic, rest) = next_bytes(bytes, 8);
    let magic = match magic {
        Ok(magic) => magic,
        Err(error) => return (Err(error), rest),
    };
    if !text::same_bytes(magic, INDEX_MAGIC.as_slice()) {
        return (Err(invalid("unsupported semantic index")), rest);
    }
    let (dimensions, rest) = next_number(rest, 4);
    let dimensions: u64 = match dimensions {
        Ok(dimensions) => dimensions,
        Err(error) => return (Err(error), rest),
    };
    if dimensions == 0 {
        return (Err(invalid("semantic index dimensions are empty")), rest);
    }
    let (length, rest) = next_number(rest, 4);
    let length: u64 = match length {
        Ok(length) => length,
        Err(error) => return (Err(error), rest),
    };
    if length == 0 {
        return (Err(invalid("semantic index model is empty")), rest);
    }
    let (model, rest) = next_text(rest, length);
    let model = match model {
        Ok(model) => model,
        Err(error) => return (Err(error), rest),
    };
    let (fingerprint, rest) = next_number(rest, 8);
    let fingerprint: u64 = match fingerprint {
        Ok(fingerprint) => fingerprint,
        Err(error) => return (Err(error), rest),
    };
    let (count, rest) = next_number(rest, 8);
    let count: u64 = match count {
        Ok(count) => count,
        Err(error) => return (Err(error), rest),
    };
    (Ok(IndexHeader { dimensions: dimensions as u32, model, fingerprint, count }), rest)
}

fn next_entry<'a>(bytes: &'a [u8]) -> (taken: (Result<IndexEntry, IndexError>, &'a [u8]))
    ensures
        taken.1@ == take_entry(bytes@).1,
        match (taken.0, take_entry(bytes@).0) {
            (Ok(entry), Ok(expected)) => entry@ == expected,
            (Err(error), Err(expected)) => error@ == expected,
            _ => false,
        },
{
    let (length, rest) = next_number(bytes, 4);
    let length: u64 = match length {
        Ok(length) => length,
        Err(error) => return (Err(error), rest),
    };
    let (key, rest) = next_text(rest, length);
    let key = match key {
        Ok(key) => key,
        Err(error) => return (Err(error), rest),
    };
    let (fingerprint, rest) = next_number(rest, 8);
    match fingerprint {
        Ok(fingerprint) => (Ok(IndexEntry { key, fingerprint }), rest),
        Err(error) => (Err(error), rest),
    }
}

/// Reads an index entry by entry.
pub struct IndexReader<'a> {
    rest: &'a [u8],
    header: IndexHeader,
    remaining: u64,
}

/// The value of an [`IndexReader`]: the header, how many entries are to come, and the bytes that
/// were not read yet.
pub struct ReaderView {
    pub header: HeaderView,
    pub remaining: u64,
    pub rest: Seq<u8>,
}

impl<'a> View for IndexReader<'a> {
    type V = ReaderView;

    closed spec fn view(&self) -> ReaderView {
        ReaderView { header: self.header@, remaining: self.remaining, rest: self.rest@ }
    }
}

impl ReaderView {
    /// The reader with other bytes to come.
    pub open spec fn at(self, rest: Seq<u8>) -> ReaderView {
        ReaderView { rest, ..self }
    }

    /// The next entry without its embedding, and the bytes after it.
    pub open spec fn entry(self) -> (Result<EntryView, IndexErrorView>, Seq<u8>) {
        if self.remaining == 0 {
            (Err(invalid_data("semantic index has no remaining entries"@)), self.rest)
        } else {
            take_entry(self.rest)
        }
    }

    /// The next entry with its embedding, and the reader after it. `room` says whether memory for
    /// the embedding was granted, or why it was not.
    pub open spec fn record(self, room: Result<(), Seq<char>>, shortage: IndexErrorView) -> (
        Result<RecordView, IndexErrorView>,
        ReaderView,
    ) {
        match self.entry() {
            (Err(error), rest) => (Err(error), self.at(rest)),
            (Ok(entry), after_entry) => match room {
                Err(reason) => (
                    Err(invalid_data("semantic index dimensions are too large: "@ + reason)),
                    self.at(after_entry),
                ),
                Ok(_) => match take_embedding(
                    after_entry,
                    self.header.dimensions as nat,
                    shortage,
                ) {
                    (Err(error), rest) => (Err(error), self.at(rest)),
                    (Ok(embedding), rest) => (
                        Ok(
                            RecordView {
                                key: entry.key,
                                fingerprint: entry.fingerprint,
                                embedding,
                            },
                        ),
                        ReaderView { remaining: (self.remaining - 1) as u64, ..self.at(rest) },
                    ),
                },
            },
        }
    }

    /// The header, where the index ends with its last entry.
    pub open spec fn finished(self) -> Result<HeaderView, IndexErrorView> {
        if self.remaining != 0 {
            Err(
                invalid_data(
                    "semantic index has "@ + text::decimal_text(self.remaining as nat)
                        + " unread entries"@,
                ),
            )
        } else if self.rest.len() > 0 {
            Err(invalid_data("semantic index has trailing data"@))
        } else {
            Ok(self.header)
        }
    }
}

impl<'a> IndexReader<'a> {
    /// Reads the header of an index.
    pub fn new(bytes: &'a [u8]) -> (reader: Result<Self, IndexError>)
        ensures
            match (reader, take_header(bytes@).0) {
                (Ok(reader), Ok(header)) => reader@ == (ReaderView {
                    header,
                    remaining: header.count,
                    rest: take_header(bytes@).1,
                }),
                (Err(error), Err(expected)) => error@ == expected,
                _ => false,
            },
    {
        let (header, rest) = next_header(bytes);
        match header {
            Ok(header) => {
                let remaining: u64 = header.count;
                Ok(IndexReader { rest, header, remaining })
            },
            Err(error) => Err(error),
        }
    }

    /// The header.
    pub fn header(&self) -> (header: &IndexHeader)
        ensures
            header@ == self@.header,
    {
        &self.header
    }

    fn read_entry_header(&mut self) -> (entry: Result<IndexEntry, IndexError>)
        ensures
            final(self)@ == old(self)@.at(old(self)@.entry().1),
            match (entry, old(self)@.entry().0) {
                (Ok(entry), Ok(expected)) => entry@ == expected,
                (Err(error), Err(expected)) => error@ == expected,
                _ => false,
            },
    {
        if self.remaining == 0 {
            return Err(invalid("semantic index has no remaining entries"));
        }
        let (entry, rest) = next_entry(self.rest);
        self.rest = rest;
        entry
    }

    /// Reads the next entry and appends its embedding, once it is known whether there is room for
    /// it. Where that fails, `embeddings` stays as it was.
    pub fn read_entry_with_room(
        &mut self,
        embeddings: &mut Vec<u32>,
        room: Result<(), String>,
    ) -> (entry: Result<IndexEntry, IndexError>)
        ensures
            final(self)@ == old(self)@.record(room_view(room), short_field()).1,
            match (entry, old(self)@.record(room_view(room), short_field()).0) {
                (Ok(entry), Ok(record)) => entry@ == record.entry() && final(embeddings)@ == old(
                    embeddings,
                )@ + record.embedding,
                (Err(error), Err(expected)) => error@ == expected && final(embeddings)@ == old(
                    embeddings,
                )@,
                _ => false,
            },
    {
        let entry = match self.read_entry_header() {
            Ok(entry) => entry,
            Err(error) => return Err(error),
        };
        if let Err(reason) = room {
            let message = text::join("semantic index dimensions are too large: ", reason.as_str());
            return Err(invalid(message.as_str()));
        }
        let start: usize = embeddings.len();
        let dimensions: u32 = self.header.dimensions;
        let ghost body = self.rest@;
        let ghost initial = embeddings@;
        let mut read: u32 = 0;
        assert(body.skip(0) =~= body);
        assert(embeddings@ =~= initial + Seq::new(0, |position: int| embedding_value(body, position)));
        while read < dimensions
            invariant
                read <= dimensions,
                self.header@ == old(self)@.header,
                self.remaining == old(self)@.remaining,
                self.rest@ == body.skip(4 * read as int),
                4 * read <= body.len(),
                start == initial.len(),
                embeddings@ == initial + Seq::new(
                    read as nat,
                    |position: int| embedding_value(body, position),
                ),
                dimensions == old(self)@.header.dimensions,
                old(self)@.remaining > 0,
                initial == old(embeddings)@,
                room is Ok,
                old(self)@.entry() == (Ok::<EntryView, IndexErrorView>(entry@), body),
            decreases dimensions - read,
        {
            let (value, rest) = next_number(self.rest, 4);
            self.rest = rest;
            match value {
                Ok(value) => {
                    let ghost earlier = embeddings@;
                    embeddings.push(value as u32);
                    proof {
                        assert(body.skip(4 * read as int).take(4) =~= body.subrange(
                            4 * read as int,
                            4 * read + 4,
                        ));
                        assert(body.skip(4 * read as int).skip(4) =~= body.skip(4 * (read + 1)));
                        assert(embeddings@ =~= initial + Seq::new(
                            (read + 1) as nat,
                            |position: int| embedding_value(body, position),
                        ));
                    }
                    read = read + 1;
                },
                Err(error) => {
                    embeddings.truncate(start);
                    assert(embeddings@ =~= initial);
                    return Err(error);
                },
            }
        }
        self.remaining = self.remaining - 1;
        Ok(entry)
    }

    /// Reads the next entry and appends its embedding, where memory for it is granted: as much is
    /// asked for as an embedding of the index takes.
    pub fn read_entry_into(&mut self, embeddings: &mut Vec<u32>) -> (entry: Result<
        IndexEntry,
        IndexError,
    >)
        ensures
            exists|room: Room|
                {
                    &&& room.requested() == requested_room(old(self)@.header).embedding
                    &&& final(self)@ == (#[trigger] old(self)@.record(
                        room.granted(),
                        short_field(),
                    )).1
                    &&& match (entry, old(self)@.record(room.granted(), short_field()).0) {
                        (Ok(entry), Ok(record)) => entry@ == record.entry() && final(embeddings)@
                            == old(embeddings)@ + record.embedding,
                        (Err(error), Err(expected)) => error@ == expected && final(embeddings)@
                            == old(embeddings)@,
                        _ => false,
                    }
                },
    {
        let room = reserve_exact(embeddings, room_request(&self.header).embedding);
        let ghost asked = room;
        let entry = self.read_entry_with_room(embeddings, room.outcome());
        assert(final(self)@ == old(self)@.record(asked.granted(), short_field()).1);
        entry
    }

    /// Passes over the next entry and its embedding.
    pub fn skip_entry(&mut self) -> (entry: Result<IndexEntry, IndexError>)
        ensures
            final(self)@ == old(self)@.record(Ok(()), short_embedding()).1,
            match (entry, old(self)@.record(Ok(()), short_embedding()).0) {
                (Ok(entry), Ok(record)) => entry@ == record.entry(),
                (Err(error), Err(expected)) => error@ == expected,
                _ => false,
            },
    {
        let entry = match self.read_entry_header() {
            Ok(entry) => entry,
            Err(error) => return Err(error),
        };
        let bytes: u64 = self.header.dimensions as u64 * 4;
        if (self.rest.len() as u64) < bytes {
            self.rest = slice_subrange(self.rest, self.rest.len(), self.rest.len());
            assert(self.rest@ =~= Seq::<u8>::empty());
            return Err(
                IndexError {
                    kind: IndexErrorKind::UnexpectedEof,
                    message: "semantic index embedding is truncated".to_owned(),
                },
            );
        }
        let ghost body = self.rest@;
        self.rest = slice_subrange(self.rest, bytes as usize, self.rest.len());
        assert(self.rest@ =~= body.skip(4 * old(self)@.header.dimensions as int));
        self.remaining = self.remaining - 1;
        Ok(entry)
    }

    /// Ends the reading: every entry must have been read, and nothing may follow the last one.
    pub fn finish(self) -> (header: Result<IndexHeader, IndexError>)
        ensures
            match (header, self@.finished()) {
                (Ok(header), Ok(expected)) => header@ == expected,
                (Err(error), Err(expected)) => error@ == expected,
                _ => false,
            },
    {
        if self.remaining != 0 {
            let message = text::join(
                text::join("semantic index has ", text::decimal(self.remaining).as_str()).as_str(),
                " unread entries",
            );
            return Err(invalid(message.as_str()));
        }
        if self.rest.len() > 0 {
            return Err(invalid("semantic index has trailing data"));
        }
        Ok(self.header)
    }
}

/// Records put before what comes after them.
pub open spec fn after_records(
    records: Seq<RecordView>,
    taken: (Result<Seq<RecordView>, IndexErrorView>, Seq<u8>),
) -> (Result<Seq<RecordView>, IndexErrorView>, Seq<u8>) {
    match taken {
        (Err(error), rest) => (Err(error), rest),
        (Ok(more), rest) => (Ok(records + more), rest),
    }
}

/// One step of a walk over the entries: the next record joins those before it.
pub proof fn lemma_records_step(
    records: Seq<RecordView>,
    bytes: Seq<u8>,
    dimensions: nat,
    count: nat,
    shortage: IndexErrorView,
)
    requires
        count > 0,
    ensures
        match take_record(bytes, dimensions, shortage) {
            (Err(error), rest) => after_records(
                records,
                take_records(bytes, dimensions, count, shortage),
            ) == (Err::<Seq<RecordView>, IndexErrorView>(error), rest),
            (Ok(record), rest) => after_records(
                records,
                take_records(bytes, dimensions, count, shortage),
            ) == after_records(
                records.push(record),
                take_records(rest, dimensions, (count - 1) as nat, shortage),
            ),
        },
{
    match take_record(bytes, dimensions, shortage) {
        (Ok(record), rest) => {
            match take_records(rest, dimensions, (count - 1) as nat, shortage) {
                (Ok(more), _) => {
                    assert(records + (seq![record] + more) =~= records.push(record) + more);
                },
                _ => {},
            }
        },
        _ => {},
    }
}

/// Reads only the header of an index.
pub fn read_index_header(bytes: &[u8]) -> (header: Result<IndexHeader, IndexError>)
    ensures
        match (header, take_header(bytes@).0) {
            (Ok(header), Ok(expected)) => header@ == expected,
            (Err(error), Err(expected)) => error@ == expected,
            _ => false,
        },
{
    next_header(bytes).0
}

/// The header of an index that is complete and not empty.
pub open spec fn validated_header(bytes: Seq<u8>) -> Result<HeaderView, IndexErrorView> {
    match take_header(bytes) {
        (Err(error), _) => Err(error),
        (Ok(header), body) => if header.count == 0 {
            Err(invalid_data("semantic index is empty"@))
        } else {
            match index_body(header, body, short_embedding()) {
                Ok(contents) => Ok(contents.0),
                Err(error) => Err(error),
            }
        },
    }
}

/// Walks through a whole index and returns its header.
pub fn validate_index(bytes: &[u8]) -> (header: Result<IndexHeader, IndexError>)
    ensures
        match (header, validated_header(bytes@)) {
            (Ok(header), Ok(expected)) => header@ == expected,
            (Err(error), Err(expected)) => error@ == expected,
            _ => false,
        },
{
    let mut reader = match IndexReader::new(bytes) {
        Ok(reader) => reader,
        Err(error) => return Err(error),
    };
    let count: u64 = reader.header().count;
    if count == 0 {
        return Err(invalid("semantic index is empty"));
    }
    let ghost start = reader@;
    let ghost all = take_records(
        start.rest,
        start.header.dimensions as nat,
        count as nat,
        short_embedding(),
    );
    let ghost mut seen: Seq<RecordView> = Seq::empty();
    proof {
        match all.0 {
            Ok(records) => {
                assert(seen + records =~= records);
            },
            _ => {},
        }
    }
    let mut left: u64 = count;
    while left > 0
        invariant
            reader@.header == start.header,
            reader@.remaining == left,
            all == take_records(
                start.rest,
                start.header.dimensions as nat,
                count as nat,
                short_embedding(),
            ),
            all == after_records(
                seen,
                take_records(
                    reader@.rest,
                    start.header.dimensions as nat,
                    left as nat,
                    short_embedding(),
                ),
            ),
            count != 0,
            take_header(bytes@) == (Ok::<HeaderView, IndexErrorView>(start.header), start.rest),
            start.header.count == count,
        decreases left,
    {
        proof {
            lemma_records_step(
                seen,
                reader@.rest,
                start.header.dimensions as nat,
                left as nat,
                short_embedding(),
            );
            match take_record(reader@.rest, start.header.dimensions as nat, short_embedding()).0 {
                Ok(record) => {
                    seen = seen.push(record);
                },
                _ => {},
            }
        }
        if let Err(error) = reader.skip_entry() {
            return Err(error);
        }
        left = left - 1;
    }
    reader.finish()
}

/// The fingerprint of each key; of entries with one key the last counts.
pub open spec fn fingerprint_map(records: Seq<RecordView>) -> Map<Seq<char>, u64>
    decreases records.len(),
{
    if records.len() == 0 {
        Map::empty()
    } else {
        fingerprint_map(records.drop_last()).insert(records.last().key, records.last().fingerprint)
    }
}

/// The fingerprints of an index, given whether there is room for them.
pub open spec fn index_fingerprints(bytes: Seq<u8>, room: Result<(), Seq<char>>) -> Result<
    Map<Seq<char>, u64>,
    IndexErrorView,
> {
    match take_header(bytes) {
        (Err(error), _) => Err(error),
        (Ok(header), body) => if header.count > usize::MAX {
            Err(invalid_data("semantic index entry count is too large"@))
        } else {
            match room {
                Err(reason) => Err(
                    invalid_data("semantic index entry count is too large: "@ + reason),
                ),
                Ok(_) => match index_body(header, body, short_embedding()) {
                    Err(error) => Err(error),
                    Ok(contents) => Ok(fingerprint_map(contents.1)),
                },
            }
        },
    }
}

/// Whether the outcome of reading fingerprints is the expected one.
pub open spec fn are_fingerprints(
    entries: Result<StringHashMap<u64>, IndexError>,
    expected: Result<Map<Seq<char>, u64>, IndexErrorView>,
) -> bool {
    match (entries, expected) {
        (Ok(entries), Ok(expected)) => entries@ == expected,
        (Err(error), Err(expected)) => error@ == expected,
        _ => false,
    }
}

/// Reads the fingerprint of each key, once it is known whether there is room for them.
pub fn read_index_fingerprints_with_room(bytes: &[u8], room: Result<(), String>) -> (entries: Result<
    StringHashMap<u64>,
    IndexError,
>)
    ensures
        are_fingerprints(entries, index_fingerprints(bytes@, room_view(room))),
{
    let mut reader = match IndexReader::new(bytes) {
        Ok(reader) => reader,
        Err(error) => return Err(error),
    };
    let count: u64 = reader.header().count;
    if count > usize::MAX as u64 {
        return Err(invalid("semantic index entry count is too large"));
    }
    if let Err(reason) = room {
        let message = text::join("semantic index entry count is too large: ", reason.as_str());
        return Err(invalid(message.as_str()));
    }
    let mut entries: StringHashMap<u64> = StringHashMap::new();
    let ghost start = reader@;
    let ghost all = take_records(
        start.rest,
        start.header.dimensions as nat,
        count as nat,
        short_embedding(),
    );
    let ghost mut seen: Seq<RecordView> = Seq::empty();
    proof {
        match all.0 {
            Ok(records) => {
                assert(seen + records =~= records);
            },
            _ => {},
        }
    }
    let mut left: u64 = count;
    while left > 0
        invariant
            reader@.header == start.header,
            reader@.remaining == left,
            all == take_records(
                start.rest,
                start.header.dimensions as nat,
                count as nat,
                short_embedding(),
            ),
            all == after_records(
                seen,
                take_records(
                    reader@.rest,
                    start.header.dimensions as nat,
                    left as nat,
                    short_embedding(),
                ),
            ),
            entries@ == fingerprint_map(seen),
            room is Ok,
            count <= usize::MAX,
            take_header(bytes@) == (Ok::<HeaderView, IndexErrorView>(start.header), start.rest),
            start.header.count == count,
        decreases left,
    {
        proof {
            lemma_records_step(
                seen,
                reader@.rest,
                start.header.dimensions as nat,
                left as nat,
                short_embedding(),
            );
        }
        let ghost record = take_record(
            reader@.rest,
            start.header.dimensions as nat,
            short_embedding(),
        ).0;
        match reader.skip_entry() {
            Ok(entry) => {
                entries.insert(entry.key, entry.fingerprint);
                proof {
                    let joined = seen.push(record->Ok_0);
                    assert(joined.drop_last() =~= seen);
                    seen = joined;
                }
            },
            Err(error) => return Err(error),
        }
        left = left - 1;
    }
    assert(seen + Seq::<RecordView>::empty() =~= seen);
    match reader.finish() {
        Ok(_) => Ok(entries),
        Err(error) => Err(error),
    }
}

/// Reads the fingerprint of each key, where memory for them is granted: as much is asked for as there
/// are entries. A count that no memory holds is invalid data.
pub fn read_index_fingerprints(bytes: &[u8]) -> (entries: Result<StringHashMap<u64>, IndexError>)
    ensures
        match take_header(bytes@).0 {
            Ok(header) => match requested_room(header).entries {
                Some(count) => exists|room: Room|
                    room.requested() == count && are_fingerprints(
                        entries,
                        #[trigger] index_fingerprints(bytes@, room.granted()),
                    ),
                None => are_fingerprints(entries, index_fingerprints(bytes@, Ok(()))),
            },
            Err(_) => are_fingerprints(entries, index_fingerprints(bytes@, Ok(()))),
        },
        take_header(bytes@).0 matches Ok(header) ==> {
            &&& header.count == 0 ==> are_fingerprints(
                entries,
                index_fingerprints(bytes@, Ok(())),
            )
            &&& header.count > isize::MAX ==> (entries matches Err(error) && error@.kind
                == IndexErrorKind::InvalidData)
        },
{
    let header = match read_index_header(bytes) {
        Ok(header) => header,
        Err(error) => return Err(error),
    };
    match room_request(&header).entries {
        Some(count) => {
            let room = fingerprint_room(count);
            let ghost asked = room;
            let entries = read_index_fingerprints_with_room(bytes, room.outcome());
            assert(are_fingerprints(entries, index_fingerprints(bytes@, asked.granted())));
            entries
        },
        None => read_index_fingerprints_with_room(bytes, Ok(())),
    }
}

} // verus!
