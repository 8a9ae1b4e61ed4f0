//! What a SentencePiece model file says of its character map and its vocabulary.
//!
//! The file is one message of numbered fields. Field 1 is a piece of the vocabulary, field 2 says how
//! the model was trained, field 3 how text is normalized, and field 5 how that is undone. Where a
//! field stands more than once, all but its last are passed over; pieces add up.

use vstd::prelude::*;
use vstd::slice::slice_subrange;

use crate::character_map::{is_sized_map, keeps_characters, readable_units, sized_map, trie_units};
use crate::text;

verus! {

/// The number at the start of the bytes, after `taken` bytes of it, and what follows it: seven bits a
/// byte, lowest first, the high bit set on all bytes but the last, which is the tenth at the latest.
pub open spec fn take_number(bytes: Seq<u8>, taken: nat) -> Option<(nat, Seq<u8>)>
    decreases bytes.len(),
{
    if bytes.len() == 0 || taken >= 10 {
        None
    } else if bytes[0] < 128 {
        Some((bytes[0] as nat, bytes.drop_first()))
    } else {
        match take_number(bytes.drop_first(), taken + 1) {
            Some((higher, rest)) => Some((((bytes[0] - 128) + 128 * higher) as nat, rest)),
            None => None,
        }
    }
}

/// What a number stays below after `taken` bytes of it.
pub open spec fn number_limit(taken: nat) -> nat
    decreases 10 - taken,
{
    if taken >= 10 {
        1
    } else {
        128 * number_limit(taken + 1)
    }
}

proof fn lemma_number_limits()
    ensures
        forall|taken: nat| taken <= 10 ==> #[trigger] number_limit(taken) <= number_limit(0),
        number_limit(0) == 0x40_0000_0000_0000_0000,
{
    reveal_with_fuel(number_limit, 12);
    assert forall|taken: nat| taken <= 10 implies #[trigger] number_limit(taken) <= number_limit(
        0,
    ) by {
        lemma_number_limit_order(0, taken);
    }
}

proof fn lemma_number_limit_order(low: nat, high: nat)
    requires
        low <= high,
    ensures
        1 <= number_limit(high) <= number_limit(low),
    decreases high - low, 10 - high,
{
    if low < high {
        lemma_number_limit_order(low + 1, high);
        lemma_number_limit_positive(low);
        lemma_number_limit_positive(low + 1);
    } else {
        lemma_number_limit_positive(low);
    }
}

proof fn lemma_number_limit_positive(taken: nat)
    ensures
        number_limit(taken) >= 1,
    decreases 10 - taken,
{
    if taken < 10 {
        lemma_number_limit_positive(taken + 1);
    }
}

/// A number takes at least one byte and stays below its limit.
pub proof fn lemma_number(bytes: Seq<u8>, taken: nat)
    ensures
        take_number(bytes, taken) matches Some((value, rest)) ==> value < number_limit(taken)
            && rest.len() < bytes.len(),
    decreases bytes.len(),
{
    if bytes.len() > 0 && taken < 10 {
        lemma_number(bytes.drop_first(), taken + 1);
        lemma_number_limit_positive(taken + 1);
    }
}

fn number<'a>(bytes: &'a [u8], taken: usize) -> (read: Option<(u128, &'a [u8])>)
    requires
        taken <= 10,
    ensures
        match (read, take_number(bytes@, taken as nat)) {
            (Some((value, rest)), Some(expected)) => value == expected.0 && rest@ == expected.1,
            (None, None) => true,
            _ => false,
        },
    decreases bytes@.len(),
{
    if bytes.len() == 0 || taken >= 10 {
        return None;
    }
    let byte: u8 = bytes[0];
    let rest = slice_subrange(bytes, 1, bytes.len());
    assert(rest@ =~= bytes@.drop_first());
    if byte < 128 {
        return Some((byte as u128, rest));
    }
    proof {
        lemma_number(bytes@.drop_first(), (taken + 1) as nat);
        lemma_number_limits();
        assert(number_limit((taken + 1) as nat) <= number_limit(0));
    }
    match number(rest, taken + 1) {
        Some((higher, rest)) => Some(((byte - 128) as u128 + 128 * higher, rest)),
        None => None,
    }
}

/// One field of a message: its number, and its value where it is a number, or its bytes.
pub struct FieldView {
    pub number: nat,
    pub value: Option<nat>,
    pub data: Option<Seq<u8>>,
}

/// The field at the start of a message and what follows it, if one can be read. A number that is too
/// large for 64 bits loses its highest bits, and a field's number those above 32.
pub open spec fn take_field(bytes: Seq<u8>) -> Option<(FieldView, Seq<u8>)> {
    match take_number(bytes, 0) {
        None => None,
        Some((key, after_key)) => {
            let number = key % 0x1_0000_0000_0000_0000 / 8 % 0x1_0000_0000;
            if number == 0 {
                None
            } else if key % 8 == 0 {
                match take_number(after_key, 0) {
                    Some((value, rest)) => Some(
                        (
                            FieldView {
                                number,
                                value: Some(value % 0x1_0000_0000_0000_0000),
                                data: None,
                            },
                            rest,
                        ),
                    ),
                    None => None,
                }
            } else if key % 8 == 2 {
                match take_number(after_key, 0) {
                    Some((size, rest)) => {
                        let size = size % 0x1_0000_0000_0000_0000;
                        if size > rest.len() {
                            None
                        } else {
                            Some(
                                (
                                    FieldView {
                                        number,
                                        value: None,
                                        data: Some(rest.take(size as int)),
                                    },
                                    rest.skip(size as int),
                                ),
                            )
                        }
                    },
                    None => None,
                }
            } else if key % 8 == 1 || key % 8 == 5 {
                let size = if key % 8 == 1 {
                    8int
                } else {
                    4int
                };
                if size > after_key.len() {
                    None
                } else {
                    Some((FieldView { number, value: None, data: None }, after_key.skip(size)))
                }
            } else {
                None
            }
        },
    }
}

/// A field takes at least one byte.
pub proof fn lemma_field(bytes: Seq<u8>)
    ensures
        take_field(bytes) matches Some((_, rest)) ==> rest.len() < bytes.len(),
{
    lemma_number(bytes, 0);
    if let Some((_, after_key)) = take_number(bytes, 0) {
        lemma_number(after_key, 0);
    }
}

struct Field<'a> {
    number: u64,
    value: Option<u64>,
    data: Option<&'a [u8]>,
}

spec fn field_view(field: Field) -> FieldView {
    FieldView {
        number: field.number as nat,
        value: match field.value {
            Some(value) => Some(value as nat),
            None => None,
        },
        data: match field.data {
            Some(data) => Some(data@),
            None => None,
        },
    }
}

fn next_field<'a>(bytes: &'a [u8]) -> (read: Option<(Field<'a>, &'a [u8])>)
    ensures
        match (read, take_field(bytes@)) {
            (Some((field, rest)), Some(expected)) => field_view(field) == expected.0 && rest@
                == expected.1 && rest@.len() < bytes@.len(),
            (None, None) => true,
            _ => false,
        },
{
    proof {
        lemma_field(bytes@);
    }
    let (key, after_key) = match number(bytes, 0) {
        Some(read) => read,
        None => return None,
    };
    let number_read: u64 = (key % 0x1_0000_0000_0000_0000 / 8 % 0x1_0000_0000) as u64;
    let wire: u128 = key % 8;
    if number_read == 0 {
        return None;
    }
    if wire == 0 {
        match number(after_key, 0) {
            Some((value, rest)) => {
                let value: u64 = (value % 0x1_0000_0000_0000_0000) as u64;
                Some((Field { number: number_read, value: Some(value), data: None }, rest))
            },
            None => None,
        }
    } else if wire == 2 {
        match number(after_key, 0) {
            Some((size, rest)) => {
                let size: u64 = (size % 0x1_0000_0000_0000_0000) as u64;
                if size > rest.len() as u64 {
                    return None;
                }
                let size: usize = size as usize;
                let data = slice_subrange(rest, 0, size);
                assert(data@ =~= rest@.take(size as int));
                let rest = slice_subrange(rest, size, rest.len());
                Some((Field { number: number_read, value: None, data: Some(data) }, rest))
            },
            None => None,
        }
    } else if wire == 1 || wire == 5 {
        let size: usize = if wire == 1 {
            8
        } else {
            4
        };
        if size > after_key.len() {
            return None;
        }
        let rest = slice_subrange(after_key, size, after_key.len());
        Some((Field { number: number_read, value: None, data: None }, rest))
    } else {
        None
    }
}

/// The bytes of a message's last field with a number, or those found before, if the message can be
/// read.
pub open spec fn last_data(bytes: Seq<u8>, number: nat, found: Option<Seq<u8>>) -> Option<
    Option<Seq<u8>>,
>
    decreases bytes.len(),
{
    if bytes.len() == 0 {
        Some(found)
    } else {
        match take_field(bytes) {
            None => None,
            Some((field, rest)) => {
                proof {
                    lemma_field(bytes);
                }
                last_data(
                    rest,
                    number,
                    if field.number == number && field.data is Some {
                        field.data
                    } else {
                        found
                    },
                )
            },
        }
    }
}

fn find_data<'a>(bytes: &'a [u8], number: u64) -> (found: Option<Option<&'a [u8]>>)
    ensures
        match (found, last_data(bytes@, number as nat, None)) {
            (Some(Some(data)), Some(Some(expected))) => data@ == expected,
            (Some(None), Some(None)) => true,
            (None, None) => true,
            _ => false,
        },
{
    let mut rest = bytes;
    let mut found: Option<&'a [u8]> = None;
    while rest.len() > 0
        invariant
            last_data(bytes@, number as nat, None) == last_data(
                rest@,
                number as nat,
                match found {
                    Some(data) => Some(data@),
                    None => None,
                },
            ),
        decreases rest@.len(),
    {
        match next_field(rest) {
            Some((field, next)) => {
                if field.number == number && field.data.is_some() {
                    found = field.data;
                }
                rest = next;
            },
            None => return None,
        }
    }
    Some(found)
}

/// The value of a message's last field with a number, or that found before, if the message can be
/// read.
pub open spec fn last_value(bytes: Seq<u8>, number: nat, found: nat) -> Option<nat>
    decreases bytes.len(),
{
    if bytes.len() == 0 {
        Some(found)
    } else {
        match take_field(bytes) {
            None => None,
            Some((field, rest)) => {
                proof {
                    lemma_field(bytes);
                }
                last_value(
                    rest,
                    number,
                    match field.value {
                        Some(value) => if field.number == number {
                            value
                        } else {
                            found
                        },
                        None => found,
                    },
                )
            },
        }
    }
}

fn find_value(bytes: &[u8], number: u64) -> (found: Option<u64>)
    ensures
        match (found, last_value(bytes@, number as nat, 0)) {
            (Some(value), Some(expected)) => value == expected,
            (None, None) => true,
            _ => false,
        },
{
    let mut rest = bytes;
    let mut found: u64 = 0;
    while rest.len() > 0
        invariant
            last_value(bytes@, number as nat, 0) == last_value(
                rest@,
                number as nat,
                found as nat,
            ),
        decreases rest@.len(),
    {
        match next_field(rest) {
            Some((field, next)) => {
                if let Some(value) = field.value {
                    if field.number == number {
                        found = value;
                    }
                }
                rest = next;
            },
            None => return None,
        }
    }
    Some(found)
}

/// The character map that a file names in one of its messages; none is the empty map.
pub open spec fn named_map(file: Seq<u8>, number: nat) -> Seq<u8> {
    match last_data(file, number, None) {
        Some(Some(message)) => match last_data(message, 2, None) {
            Some(Some(map)) => map,
            _ => Seq::empty(),
        },
        _ => Seq::empty(),
    }
}

fn find_map<'a>(file: &'a [u8], number: u64) -> (map: Option<&'a [u8]>)
    ensures
        match map {
            Some(map) => map@ == named_map(file@, number as nat),
            None => named_map(file@, number as nat) == Seq::<u8>::empty(),
        },
{
    match find_data(file, number) {
        Some(Some(message)) => match find_data(message, 2) {
            Some(found) => found,
            None => None,
        },
        _ => None,
    }
}

/// Whether the maps that a file names can be taken apart.
pub open spec fn is_loadable_model(file: Seq<u8>) -> bool {
    is_sized_map(named_map(file, 3)) && is_sized_map(named_map(file, 5))
}

/// Tells whether the maps that a file names can be taken apart.
pub fn loadable_model(file: &[u8]) -> (loadable: bool)
    ensures
        loadable == is_loadable_model(file@),
{
    let normalizing = match find_map(file, 3) {
        Some(map) => sized_map(map),
        None => true,
    };
    let restoring = match find_map(file, 5) {
        Some(map) => sized_map(map),
        None => true,
    };
    normalizing && restoring
}

/// The units of the trie by which a model normalizes text.
pub open spec fn model_units(file: Seq<u8>) -> Seq<u32> {
    readable_units(named_map(file, 3))
}

/// Reads the units of the trie by which a model normalizes text.
pub fn read_model_units(file: &[u8]) -> (units: Vec<u32>)
    ensures
        units@ == model_units(file@),
{
    match find_map(file, 3) {
        Some(map) => trie_units(map),
        None => {
            let units: Vec<u32> = Vec::new();
            assert(units@ =~= Seq::<u32>::empty());
            units
        },
    }
}

/// Whether a model joins pairs of pieces.
pub open spec fn joins_pairs(file: Seq<u8>) -> bool {
    match last_data(file, 2, None) {
        Some(Some(training)) => match last_value(training, 3, 0) {
            Some(kind) => kind % 0x1_0000_0000 == 2,
            None => false,
        },
        _ => false,
    }
}

/// The bytes of the piece that a field holds, if it holds one that is marked as unused.
pub open spec fn unused_piece(field: FieldView) -> Option<Seq<u8>> {
    match field.data {
        Some(piece) => if field.number == 1 && (last_value(piece, 3, 0) matches Some(kind) && kind
            % 0x1_0000_0000 == 5) {
            match last_data(piece, 1, None) {
                Some(found) => found,
                None => None,
            }
        } else {
            None
        },
        None => None,
    }
}

/// The pieces of the rest of a file that are marked as unused, after those found before.
pub open spec fn unused_from(bytes: Seq<u8>, found: Seq<Seq<u8>>) -> Seq<Seq<u8>>
    decreases bytes.len(),
{
    if bytes.len() == 0 {
        found
    } else {
        match take_field(bytes) {
            None => found,
            Some((field, rest)) => {
                proof {
                    lemma_field(bytes);
                }
                unused_from(
                    rest,
                    match unused_piece(field) {
                        Some(piece) => found.push(piece),
                        None => found,
                    },
                )
            },
        }
    }
}

/// The pieces that a model may join pairs to and then has to take apart again, since they are marked
/// as unused; a model that joins no pairs has none.
pub open spec fn parted_pieces(file: Seq<u8>) -> Seq<Seq<u8>> {
    if joins_pairs(file) {
        unused_from(file, Seq::empty())
    } else {
        Seq::empty()
    }
}

fn find_unused<'a>(field: &Field<'a>) -> (found: Option<&'a [u8]>)
    ensures
        match (found, unused_piece(field_view(*field))) {
            (Some(piece), Some(expected)) => piece@ == expected,
            (None, None) => true,
            _ => false,
        },
{
    match field.data {
        Some(piece) => {
            let unused = field.number == 1 && match find_value(piece, 3) {
                Some(kind) => kind % 0x1_0000_0000 == 5,
                None => false,
            };
            if !unused {
                return None;
            }
            match find_data(piece, 1) {
                Some(found) => found,
                None => None,
            }
        },
        None => None,
    }
}

/// The values of pieces.
pub open spec fn piece_views(pieces: Seq<Vec<u8>>) -> Seq<Seq<u8>> {
    pieces.map_values(|piece: Vec<u8>| piece@)
}

/// Reads the pieces that a model may join pairs to and then has to take apart again.
pub fn read_parted_pieces(file: &[u8]) -> (pieces: Vec<Vec<u8>>)
    ensures
        piece_views(pieces@) == parted_pieces(file@),
{
    let mut pieces: Vec<Vec<u8>> = Vec::new();
    assert(piece_views(pieces@) =~= Seq::<Seq<u8>>::empty());
    let pairs = match find_data(file, 2) {
        Some(Some(training)) => match find_value(training, 3) {
            Some(kind) => kind % 0x1_0000_0000 == 2,
            None => false,
        },
        _ => false,
    };
    if !pairs {
        return pieces;
    }
    let mut rest = file;
    while rest.len() > 0
        invariant
            joins_pairs(file@),
            unused_from(file@, Seq::empty()) == unused_from(rest@, piece_views(pieces@)),
        decreases rest@.len(),
    {
        match next_field(rest) {
            Some((field, next)) => {
                if let Some(found) = find_unused(&field) {
                    let ghost before = pieces@;
                    let mut piece: Vec<u8> = Vec::new();
                    piece.extend_from_slice(found);
                    assert(piece@ =~= found@);
                    pieces.push(piece);
                    assert(piece_views(pieces@) =~= piece_views(before).push(found@));
                }
                rest = next;
            },
            None => return pieces,
        }
    }
    pieces
}

/// Whether a piece stands somewhere in a text.
pub open spec fn stands_in(piece: Seq<u8>, bytes: Seq<u8>) -> bool {
    exists|at: int|
        0 <= at <= bytes.len() - piece.len() && #[trigger] bytes.subrange(at, at + piece.len())
            == piece
}

/// Tells whether a piece stands somewhere in a text.
pub fn found_in(piece: &[u8], bytes: &[u8]) -> (found: bool)
    ensures
        found == stands_in(piece@, bytes@),
{
    if piece.len() > bytes.len() {
        return false;
    }
    let mut at: usize = 0;
    while at < bytes.len() - piece.len()
        invariant
            piece@.len() <= bytes@.len(),
            at <= bytes@.len() - piece@.len(),
            forall|i: int| 0 <= i < at ==> #[trigger] bytes@.subrange(i, i + piece@.len()) != piece@,
        decreases bytes@.len() - piece@.len() - at,
    {
        if text::same_bytes(slice_subrange(bytes, at, at + piece.len()), piece) {
            return true;
        }
        at = at + 1;
    }
    text::same_bytes(slice_subrange(bytes, at, at + piece.len()), piece)
}

/// Whether none of some pieces stands in a text.
pub open spec fn is_free_of(pieces: Seq<Seq<u8>>, bytes: Seq<u8>) -> bool {
    forall|i: int| 0 <= i < pieces.len() ==> !stands_in(#[trigger] pieces[i], bytes)
}

/// Tells whether none of some pieces stands in a text.
pub fn free_of(pieces: &Vec<Vec<u8>>, bytes: &[u8]) -> (free: bool)
    ensures
        free == is_free_of(piece_views(pieces@), bytes@),
{
    let mut at: usize = 0;
    while at < pieces.len()
        invariant
            at <= pieces@.len(),
            forall|i: int|
                0 <= i < at ==> !stands_in(#[trigger] piece_views(pieces@)[i], bytes@),
        decreases pieces@.len() - at,
    {
        if found_in(pieces[at].as_slice(), bytes) {
            assert(stands_in(piece_views(pieces@)[at as int], bytes@));
            return false;
        }
        at = at + 1;
    }
    true
}

/// Whether the character map of a model replaces only whole characters of a text.
pub open spec fn is_normalizable(file: Seq<u8>, bytes: Seq<u8>) -> bool {
    keeps_characters(model_units(file), bytes)
}

} // verus!
