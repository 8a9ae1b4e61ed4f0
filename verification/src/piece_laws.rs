//! What a SentencePiece model says of its character map and its vocabulary is read from it.

use vstd::prelude::*;

use crate::character_map::{sized_map, trie_units};
use crate::piece_model::{
    last_data, last_value, loadable_model, number_limit, piece_views, read_model_units,
    read_parted_pieces, take_field, take_number, unused_from, unused_piece, FieldView,
};

verus! {

/// A field of a message: its number, and a number or bytes.
pub enum Entry {
    Value(nat, nat),
    Data(nat, Seq<u8>),
}

/// A number as it is written: seven bits a byte, lowest first, the high bit set on all but the last.
pub open spec fn written_number(number: nat) -> Seq<u8>
    decreases number,
{
    if number < 128 {
        seq![number as u8]
    } else {
        seq![(number % 128 + 128) as u8] + written_number(number / 128)
    }
}

/// A field as it is written.
pub open spec fn written_entry(entry: Entry) -> Seq<u8> {
    match entry {
        Entry::Value(number, value) => written_number(8 * number) + written_number(value),
        Entry::Data(number, data) => written_number(8 * number + 2) + (written_number(data.len())
            + data),
    }
}

/// A message as it is written.
pub open spec fn written(message: Seq<Entry>) -> Seq<u8>
    decreases message.len(),
{
    if message.len() == 0 {
        Seq::empty()
    } else {
        written_entry(message[0]) + written(message.skip(1))
    }
}

/// Whether a field can be written: its number has 29 bits and is not zero, and its value or the
/// length of its bytes 63.
pub open spec fn is_entry(entry: Entry) -> bool {
    match entry {
        Entry::Value(number, value) => 0 < number < 0x2000_0000 && value < 0x8000_0000_0000_0000,
        Entry::Data(number, data) => 0 < number < 0x2000_0000 && data.len() < 0x8000_0000_0000_0000,
    }
}

/// Whether the fields of a message can be written.
pub open spec fn is_message(message: Seq<Entry>) -> bool {
    forall|i: int| 0 <= i < message.len() ==> is_entry(#[trigger] message[i])
}

/// Whether a message's last field with bytes and a number is at a position and has these bytes.
pub open spec fn is_last_data(message: Seq<Entry>, at: int, number: nat, data: Seq<u8>) -> bool {
    &&& 0 <= at < message.len()
    &&& message[at] == Entry::Data(number, data)
    &&& forall|i: int|
        at < i < message.len() ==> !(#[trigger] message[i] matches Entry::Data(n, _) && n == number)
}

/// Whether a message's last field with a value and a number is at a position and has this value.
pub open spec fn is_last_value(message: Seq<Entry>, at: int, number: nat, value: nat) -> bool {
    &&& 0 <= at < message.len()
    &&& message[at] == Entry::Value(number, value)
    &&& forall|i: int|
        at < i < message.len() ==> !(#[trigger] message[i] matches Entry::Value(n, _) && n == number)
}

proof fn lemma_written_number(number: nat, taken: nat, rest: Seq<u8>)
    requires
        taken < 10,
        number < number_limit(taken),
    ensures
        take_number(written_number(number) + rest, taken) == Some((number, rest)),
    decreases number,
{
    let bytes = written_number(number) + rest;
    if number < 128 {
        assert(bytes.drop_first() =~= rest);
    } else {
        reveal_with_fuel(number_limit, 2);
        assert(bytes.drop_first() =~= written_number(number / 128) + rest);
        assert(taken + 1 < 10) by {
            if taken + 1 >= 10 {
                assert(number_limit(taken + 1) == 1);
            }
        }
        lemma_written_number(number / 128, taken + 1, rest);
    }
}

proof fn lemma_limit()
    ensures
        number_limit(0) == 0x40_0000_0000_0000_0000,
{
    reveal_with_fuel(number_limit, 12);
}

proof fn lemma_entry(entry: Entry, rest: Seq<u8>)
    requires
        is_entry(entry),
    ensures
        take_field(written_entry(entry) + rest) == Some(
            (
                match entry {
                    Entry::Value(number, value) => FieldView {
                        number,
                        value: Some(value),
                        data: None,
                    },
                    Entry::Data(number, data) => FieldView {
                        number,
                        value: None,
                        data: Some(data),
                    },
                },
                rest,
            ),
        ),
        written_entry(entry).len() > 0,
{
    match entry {
        Entry::Value(number, value) => {
            lemma_value_entry(number, value, rest);
        },
        Entry::Data(number, data) => {
            lemma_data_entry(number, data, rest);
        },
    }
}

proof fn lemma_key(number: nat, kind: nat)
    requires
        0 < number < 0x2000_0000,
        kind < 8,
    ensures
        (8 * number + kind) % 0x1_0000_0000_0000_0000 / 8 % 0x1_0000_0000 == number,
        (8 * number + kind) % 8 == kind,
        8 * number + kind < 0x40_0000_0000_0000_0000,
{
}

proof fn lemma_value_entry(number: nat, value: nat, rest: Seq<u8>)
    requires
        0 < number < 0x2000_0000,
        value < 0x8000_0000_0000_0000,
    ensures
        take_field(written_entry(Entry::Value(number, value)) + rest) == Some(
            (FieldView { number, value: Some(value), data: None }, rest),
        ),
        written_entry(Entry::Value(number, value)).len() > 0,
{
    let key = 8 * number;
    let bytes = written_entry(Entry::Value(number, value)) + rest;
    assert(bytes =~= written_number(key) + (written_number(value) + rest));
    lemma_limit();
    lemma_key(number, 0);
    lemma_written_number(key, 0, written_number(value) + rest);
    lemma_written_number(value, 0, rest);
}

proof fn lemma_data_entry(number: nat, data: Seq<u8>, rest: Seq<u8>)
    requires
        0 < number < 0x2000_0000,
        data.len() < 0x8000_0000_0000_0000,
    ensures
        take_field(written_entry(Entry::Data(number, data)) + rest) == Some(
            (FieldView { number, value: None, data: Some(data) }, rest),
        ),
        written_entry(Entry::Data(number, data)).len() > 0,
{
    let key = 8 * number + 2;
    let after = written_number(data.len()) + (data + rest);
    let bytes = written_entry(Entry::Data(number, data)) + rest;
    assert(bytes =~= written_number(key) + after);
    lemma_limit();
    lemma_key(number, 2);
    lemma_written_number(key, 0, after);
    lemma_written_number(data.len(), 0, data + rest);
    assert((data + rest).take(data.len() as int) =~= data);
    assert((data + rest).skip(data.len() as int) =~= rest);
}

proof fn lemma_last_data(
    message: Seq<Entry>,
    at: int,
    number: nat,
    data: Seq<u8>,
    found: Option<Seq<u8>>,
)
    requires
        is_message(message),
        is_last_data(message, at, number, data) || (found == Some(data) && forall|i: int|
            0 <= i < message.len() ==> !(#[trigger] message[i] matches Entry::Data(n, _) && n
                == number)),
    ensures
        last_data(written(message), number, found) == Some(Some(data)),
    decreases message.len(),
{
    if message.len() > 0 {
        let rest = message.skip(1);
        assert(is_entry(message[0]));
        lemma_entry(message[0], written(rest));
        assert forall|i: int| 0 <= i < rest.len() implies is_entry(#[trigger] rest[i]) by {
            assert(rest[i] == message[i + 1]);
        }
        assert forall|i: int| 0 <= i < rest.len() implies #[trigger] rest[i] == message[i + 1] by {}
        if is_last_data(message, at, number, data) && at > 0 {
            assert(is_last_data(rest, at - 1, number, data));
        }
        let found = match message[0] {
            Entry::Data(n, bytes) => if n == number {
                Some(bytes)
            } else {
                found
            },
            _ => found,
        };
        lemma_last_data(rest, at - 1, number, data, found);
    }
}

proof fn lemma_last_value(message: Seq<Entry>, at: int, number: nat, value: nat, found: nat)
    requires
        is_message(message),
        is_last_value(message, at, number, value) || (found == value && forall|i: int|
            0 <= i < message.len() ==> !(#[trigger] message[i] matches Entry::Value(n, _) && n
                == number)),
    ensures
        last_value(written(message), number, found) == Some(value),
    decreases message.len(),
{
    if message.len() > 0 {
        let rest = message.skip(1);
        assert(is_entry(message[0]));
        lemma_entry(message[0], written(rest));
        assert forall|i: int| 0 <= i < rest.len() implies is_entry(#[trigger] rest[i]) by {
            assert(rest[i] == message[i + 1]);
        }
        assert forall|i: int| 0 <= i < rest.len() implies #[trigger] rest[i] == message[i + 1] by {}
        if is_last_value(message, at, number, value) && at > 0 {
            assert(is_last_value(rest, at - 1, number, value));
        }
        let found = match message[0] {
            Entry::Value(n, v) => if n == number {
                v
            } else {
                found
            },
            _ => found,
        };
        lemma_last_value(rest, at - 1, number, value, found);
    }
}

/// The trie by which a model normalizes text is that of the map which its last message on
/// normalizing names last.
pub proof fn law_models_normalize_by_their_map(
    file: &[u8],
    message: Seq<Entry>,
    at: int,
    normalizing: Seq<Entry>,
    inner: int,
    map: &[u8],
    units: Vec<u32>,
    expected: Vec<u32>,
)
    requires
        is_message(message),
        file@ == written(message),
        is_message(normalizing),
        is_last_data(message, at, 3, written(normalizing)),
        is_last_data(normalizing, inner, 2, map@),
        call_ensures(read_model_units, (file,), units),
        call_ensures(trie_units, (map,), expected),
    ensures
        units@ == expected@,
{
    lemma_last_data(message, at, 3, written(normalizing), None);
    lemma_last_data(normalizing, inner, 2, map@, None);
}

/// A model can be loaded exactly if both its maps, that of normalizing and that of undoing it, can be
/// taken apart.
pub proof fn law_loadable_models_have_true_sizes(
    file: &[u8],
    message: Seq<Entry>,
    at: int,
    normalizing: Seq<Entry>,
    inner: int,
    map: &[u8],
    sized: bool,
    undo_at: int,
    undoing: Seq<Entry>,
    undo_inner: int,
    undo_map: &[u8],
    undo_sized: bool,
    loadable: bool,
)
    requires
        is_message(message),
        file@ == written(message),
        is_message(normalizing),
        is_last_data(message, at, 3, written(normalizing)),
        is_last_data(normalizing, inner, 2, map@),
        is_message(undoing),
        is_last_data(message, undo_at, 5, written(undoing)),
        is_last_data(undoing, undo_inner, 2, undo_map@),
        call_ensures(sized_map, (map,), sized),
        call_ensures(sized_map, (undo_map,), undo_sized),
        call_ensures(loadable_model, (file,), loadable),
    ensures
        loadable == (sized && undo_sized),
{
    lemma_last_data(message, at, 3, written(normalizing), None);
    lemma_last_data(normalizing, inner, 2, map@, None);
    lemma_last_data(message, undo_at, 5, written(undoing), None);
    lemma_last_data(undoing, undo_inner, 2, undo_map@, None);
}

/// A piece of the vocabulary with its kind, as a field of the file.
pub open spec fn piece_entry(piece: (Seq<u8>, nat)) -> Entry {
    Entry::Data(1, written(seq![Entry::Data(1, piece.0), Entry::Value(3, piece.1)]))
}

/// The pieces of a vocabulary that are of the kind that is not used.
pub open spec fn unused(pieces: Seq<(Seq<u8>, nat)>) -> Seq<Seq<u8>>
    decreases pieces.len(),
{
    if pieces.len() == 0 {
        Seq::empty()
    } else if pieces[0].1 == 5 {
        seq![pieces[0].0] + unused(pieces.skip(1))
    } else {
        unused(pieces.skip(1))
    }
}

/// A file of a vocabulary and of how the model was trained.
pub open spec fn model_entries(pieces: Seq<(Seq<u8>, nat)>, kind: nat) -> Seq<Entry> {
    Seq::new(pieces.len(), |i: int| piece_entry(pieces[i])).push(
        Entry::Data(2, written(seq![Entry::Value(3, kind)])),
    )
}

proof fn lemma_piece(piece: (Seq<u8>, nat))
    requires
        piece.0.len() < 0x8000_0000_0000_0000,
        piece.1 < 0x8000_0000,
    ensures
        ({
            let field = FieldView {
                number: 1,
                value: None,
                data: Some(written(seq![Entry::Data(1, piece.0), Entry::Value(3, piece.1)])),
            };
            unused_piece(field) == if piece.1 == 5 {
                Some(piece.0)
            } else {
                None
            }
        }),
{
    let inner = seq![Entry::Data(1, piece.0), Entry::Value(3, piece.1)];
    assert(is_message(inner));
    assert(is_last_data(inner, 0, 1, piece.0));
    assert(is_last_value(inner, 1, 3, piece.1));
    lemma_last_data(inner, 0, 1, piece.0, None);
    lemma_last_value(inner, 1, 3, piece.1, 0);
}

proof fn lemma_unused(pieces: Seq<(Seq<u8>, nat)>, kind: nat, found: Seq<Seq<u8>>)
    requires
        is_message(model_entries(pieces, kind)),
        forall|i: int|
            0 <= i < pieces.len() ==> (#[trigger] pieces[i]).0.len() < 0x8000_0000_0000_0000
                && pieces[i].1 < 0x8000_0000,
    ensures
        unused_from(written(model_entries(pieces, kind)), found) == found + unused(pieces),
    decreases pieces.len(),
{
    let message = model_entries(pieces, kind);
    let rest = message.skip(1);
    assert(is_entry(message[0]));
    lemma_entry(message[0], written(rest));
    if pieces.len() == 0 {
        assert(written(rest) =~= Seq::empty());
        assert(unused_from(written(rest), found) == found);
        assert(message[0] == Entry::Data(2, written(seq![Entry::Value(3, kind)])));
        assert(unused_from(written(message), found) == unused_from(written(rest), found));
        assert(found + unused(pieces) =~= found);
    } else {
        assert(rest =~= model_entries(pieces.skip(1), kind));
        assert forall|i: int| 0 <= i < rest.len() implies is_entry(#[trigger] rest[i]) by {
            assert(rest[i] == message[i + 1]);
        }
        let piece = pieces[0];
        lemma_piece(piece);
        let next = if piece.1 == 5 {
            found.push(piece.0)
        } else {
            found
        };
        assert(message[0] == piece_entry(piece));
        assert(unused_from(written(message), found) == unused_from(written(rest), next));
        lemma_unused(pieces.skip(1), kind, next);
        assert(next + unused(pieces.skip(1)) =~= found + unused(pieces));
    }
}

/// A model that joins pairs has to take apart again the pieces of its vocabulary that are not used,
/// in their order; one that joins no pairs has none.
pub proof fn law_unused_pieces_are_taken_apart(
    file: &[u8],
    vocabulary: Seq<(Seq<u8>, nat)>,
    kind: nat,
    pieces: Vec<Vec<u8>>,
)
    requires
        kind < 0x8000_0000,
        is_message(model_entries(vocabulary, kind)),
        forall|i: int|
            0 <= i < vocabulary.len() ==> (#[trigger] vocabulary[i]).0.len()
                < 0x8000_0000_0000_0000 && vocabulary[i].1 < 0x8000_0000,
        file@ == written(model_entries(vocabulary, kind)),
        call_ensures(read_parted_pieces, (file,), pieces),
    ensures
        kind == 2 ==> piece_views(pieces@) == unused(vocabulary),
        kind != 2 ==> pieces@.len() == 0,
{
    let message = model_entries(vocabulary, kind);
    let training = seq![Entry::Value(3, kind)];
    assert(is_message(training));
    assert(is_last_value(training, 0, 3, kind));
    lemma_last_value(training, 0, 3, kind, 0);
    assert(is_last_data(message, vocabulary.len() as int, 2, written(training)));
    lemma_last_data(message, vocabulary.len() as int, 2, written(training), None);
    lemma_unused(vocabulary, kind, Seq::empty());
    assert(Seq::<Seq<u8>>::empty() + unused(vocabulary) =~= unused(vocabulary));
    assert(piece_views(pieces@).len() == pieces@.len());
}

} // verus!
