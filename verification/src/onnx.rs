//! Finding the external tensor files that an ONNX model names.

use vstd::prelude::*;
use vstd::slice::slice_subrange;
use vstd::string::*;
use vstd::utf8::*;

use crate::failure::{plain_failure, Failure, FailureView};
use crate::names::text_views;
use crate::text;

verus! {

/// How deep the messages of a model may nest.
pub const MAX_DEPTH: usize = 64;

/// The messages of a model that lead to external tensors.
#[derive(Debug, Clone, Copy, PartialEq, Eq, Structural)]
pub enum Message {
    Model,
    Training,
    Function,
    Graph,
    Node,
    Attribute,
    Tensor,
    Sparse,
    Entry,
}

/// The message that a field of a message holds, where it leads to external tensors.
pub open spec fn field_message(message: Message, number: nat) -> Option<Message> {
    match message {
        Message::Model => if number == 7 {
            Some(Message::Graph)
        } else if number == 20 {
            Some(Message::Training)
        } else if number == 25 {
            Some(Message::Function)
        } else {
            None
        },
        Message::Training => if number == 1 || number == 2 {
            Some(Message::Graph)
        } else {
            None
        },
        Message::Function => if number == 7 {
            Some(Message::Node)
        } else if number == 11 {
            Some(Message::Attribute)
        } else {
            None
        },
        Message::Graph => if number == 1 {
            Some(Message::Node)
        } else if number == 5 {
            Some(Message::Tensor)
        } else if number == 15 {
            Some(Message::Sparse)
        } else {
            None
        },
        Message::Node => if number == 5 {
            Some(Message::Attribute)
        } else {
            None
        },
        Message::Attribute => if number == 6 || number == 11 {
            Some(Message::Graph)
        } else if number == 5 || number == 10 {
            Some(Message::Tensor)
        } else if number == 22 || number == 23 {
            Some(Message::Sparse)
        } else {
            None
        },
        Message::Tensor => if number == 13 {
            Some(Message::Entry)
        } else {
            None
        },
        Message::Sparse => if number == 1 || number == 2 {
            Some(Message::Tensor)
        } else {
            None
        },
        Message::Entry => None,
    }
}

fn child_message(message: Message, number: u64) -> (child: Option<Message>)
    ensures
        child == field_message(message, number as nat),
{
    match (message, number) {
        (Message::Model, 7) => Some(Message::Graph),
        (Message::Training, 1) => Some(Message::Graph),
        (Message::Training, 2) => Some(Message::Graph),
        (Message::Attribute, 6) => Some(Message::Graph),
        (Message::Attribute, 11) => Some(Message::Graph),
        (Message::Model, 20) => Some(Message::Training),
        (Message::Model, 25) => Some(Message::Function),
        (Message::Graph, 1) => Some(Message::Node),
        (Message::Function, 7) => Some(Message::Node),
        (Message::Graph, 5) => Some(Message::Tensor),
        (Message::Attribute, 5) => Some(Message::Tensor),
        (Message::Attribute, 10) => Some(Message::Tensor),
        (Message::Sparse, 1) => Some(Message::Tensor),
        (Message::Sparse, 2) => Some(Message::Tensor),
        (Message::Graph, 15) => Some(Message::Sparse),
        (Message::Attribute, 22) => Some(Message::Sparse),
        (Message::Attribute, 23) => Some(Message::Sparse),
        (Message::Node, 5) => Some(Message::Attribute),
        (Message::Function, 11) => Some(Message::Attribute),
        (Message::Tensor, 13) => Some(Message::Entry),
        _ => None,
    }
}

/// The variable-length number at the start of the bytes, after `taken` bytes of it, and what
/// follows it: seven bits a byte, lowest first, the high bit set on all bytes but the last. The
/// tenth byte can only hold the highest of 64 bits.
pub open spec fn take_varint(bytes: Seq<u8>, taken: nat) -> (Result<nat, FailureView>, Seq<u8>)
    decreases bytes.len(),
{
    if bytes.len() == 0 {
        (Err(plain_failure("truncated ONNX field"@)), bytes)
    } else if taken >= 9 && bytes[0] > 1 {
        (Err(plain_failure("invalid ONNX integer"@)), bytes.drop_first())
    } else if bytes[0] < 128 {
        (Ok(bytes[0] as nat), bytes.drop_first())
    } else {
        match take_varint(bytes.drop_first(), taken + 1) {
            (Ok(higher), rest) => (Ok(((bytes[0] - 128) + 128 * higher) as nat), rest),
            (Err(failure), rest) => (Err(failure), rest),
        }
    }
}

/// What a variable-length number stays below after `taken` bytes of it.
pub open spec fn varint_limit(taken: nat) -> nat
    decreases 9 - taken,
{
    if taken >= 9 {
        2
    } else {
        128 * varint_limit(taken + 1)
    }
}

/// A variable-length number takes at least one byte and stays below its limit.
pub proof fn lemma_varint(bytes: Seq<u8>, taken: nat)
    requires
        taken <= 9,
    ensures
        take_varint(bytes, taken).0 matches Ok(value) ==> value < varint_limit(taken)
            && take_varint(bytes, taken).1.len() < bytes.len(),
        take_varint(bytes, taken).1.len() <= bytes.len(),
    decreases bytes.len(),
{
    if bytes.len() > 0 && bytes[0] >= 128 && taken < 9 {
        lemma_varint(bytes.drop_first(), taken + 1);
    }
    if taken < 9 {
        lemma_varint_limit_positive(taken + 1);
    }
}

proof fn lemma_varint_limit_positive(taken: nat)
    ensures
        varint_limit(taken) >= 2,
    decreases 9 - taken,
{
    if taken < 9 {
        lemma_varint_limit_positive(taken + 1);
    }
}

proof fn lemma_varint_limit_bound(taken: nat)
    requires
        taken <= 9,
    ensures
        varint_limit(taken) <= 0x1_0000_0000_0000_0000,
        taken > 0 ==> varint_limit(taken) <= 0x200_0000_0000_0000,
{
    reveal_with_fuel(varint_limit, 11);
    assert(varint_limit(0) == 0x1_0000_0000_0000_0000);
    lemma_varint_limit_order(1, taken);
}

proof fn lemma_varint_limit_order(low: nat, high: nat)
    ensures
        low <= high ==> varint_limit(high) <= varint_limit(low),
    decreases high - low,
{
    if low < high {
        lemma_varint_limit_order(low, (high - 1) as nat);
        lemma_varint_limit_positive(high);
    }
}

fn varint<'a>(bytes: &'a [u8], taken: usize) -> (read: (Result<u64, Failure>, &'a [u8]))
    requires
        taken <= 9,
    ensures
        read.1@ == take_varint(bytes@, taken as nat).1,
        match (read.0, take_varint(bytes@, taken as nat).0) {
            (Ok(value), Ok(expected)) => value == expected,
            (Err(failure), Err(expected)) => failure@ == expected,
            _ => false,
        },
    decreases bytes@.len(),
{
    if bytes.len() == 0 {
        return (Err(Failure::plain("truncated ONNX field")), bytes);
    }
    let byte: u8 = bytes[0];
    let rest = slice_subrange(bytes, 1, bytes.len());
    assert(rest@ =~= bytes@.drop_first());
    if taken >= 9 && byte > 1 {
        return (Err(Failure::plain("invalid ONNX integer")), rest);
    }
    if byte < 128 {
        return (Ok(byte as u64), rest);
    }
    let (higher, rest) = varint(rest, taken + 1);
    match higher {
        Ok(higher) => {
            proof {
                lemma_varint(bytes@.drop_first(), (taken + 1) as nat);
                lemma_varint_limit_bound((taken + 1) as nat);
            }
            (Ok((byte - 128) as u64 + 128 * higher), rest)
        },
        Err(failure) => (Err(failure), rest),
    }
}

/// How long a field of a wire type is, and what follows its length.
pub open spec fn take_size(wire: nat, bytes: Seq<u8>) -> (Result<nat, FailureView>, Seq<u8>) {
    if wire == 1 {
        (Ok(8), bytes)
    } else if wire == 5 {
        (Ok(4), bytes)
    } else if wire == 2 {
        match take_varint(bytes, 0) {
            (Ok(size), rest) => if size > usize::MAX {
                (
                    Err(plain_failure("out of range integral type conversion attempted"@)),
                    rest,
                )
            } else {
                (Ok(size), rest)
            },
            (Err(failure), rest) => (Err(failure), rest),
        }
    } else {
        (Err(plain_failure("unsupported ONNX wire type"@)), bytes)
    }
}

/// One member of a key-value entry after a field of it.
pub open spec fn entry_member(
    message: Message,
    wanted: nat,
    number: nat,
    field: Seq<u8>,
    member: Option<Seq<char>>,
) -> Result<Option<Seq<char>>, FailureView> {
    if message == Message::Entry && number == wanted {
        if valid_utf8(field) {
            Ok(Some(decode_utf8(field)))
        } else {
            Err(plain_failure(text::utf8_error_text(field)))
        }
    } else {
        Ok(member)
    }
}

/// The external tensor files that the rest of a message names, after those `found` before; `key`
/// and `value` are the members of a key-value entry as far as they were read.
pub open spec fn message_files(
    bytes: Seq<u8>,
    message: Message,
    depth: nat,
    key: Option<Seq<char>>,
    value: Option<Seq<char>>,
    found: Seq<Seq<char>>,
) -> Result<Seq<Seq<char>>, FailureView>
    decreases MAX_DEPTH - depth, bytes.len(),
{
    if bytes.len() == 0 {
        if key == Some("location"@) {
            match value {
                Some(location) => Ok(found.push(location)),
                None => Err(plain_failure("ONNX external tensor has no location"@)),
            }
        } else {
            Ok(found)
        }
    } else {
        match take_varint(bytes, 0) {
            (Err(failure), _) => Err(failure),
            (Ok(tag), after_tag) => {
                proof {
                    lemma_varint(bytes, 0);
                }
                if tag / 8 == 0 {
                    Err(plain_failure("invalid ONNX field"@))
                } else if tag % 8 == 0 {
                    match take_varint(after_tag, 0) {
                        (Err(failure), _) => Err(failure),
                        (Ok(_), rest) => {
                            proof {
                                lemma_varint(after_tag, 0);
                            }
                            message_files(rest, message, depth, key, value, found)
                        },
                    }
                } else {
                    match take_size(tag % 8, after_tag) {
                        (Err(failure), _) => Err(failure),
                        (Ok(size), after_size) => {
                            proof {
                                lemma_varint(after_tag, 0);
                            }
                            if size > after_size.len() {
                                Err(plain_failure("truncated ONNX field"@))
                            } else {
                                let field = after_size.take(size as int);
                                let rest = after_size.skip(size as int);
                                if tag % 8 != 2 {
                                    message_files(rest, message, depth, key, value, found)
                                } else {
                                    match (
                                        entry_member(message, 1, tag / 8, field, key),
                                        entry_member(message, 2, tag / 8, field, value),
                                    ) {
                                        (Err(failure), _) => Err(failure),
                                        (_, Err(failure)) => Err(failure),
                                        (Ok(key), Ok(value)) => match field_message(
                                            message,
                                            tag / 8,
                                        ) {
                                            None => message_files(
                                                rest,
                                                message,
                                                depth,
                                                key,
                                                value,
                                                found,
                                            ),
                                            Some(child) => if depth + 1 >= MAX_DEPTH {
                                                Err(
                                                    plain_failure(
                                                        "ONNX graph nesting exceeds limit"@,
                                                    ),
                                                )
                                            } else {
                                                match message_files(
                                                    field,
                                                    child,
                                                    depth + 1,
                                                    None,
                                                    None,
                                                    found,
                                                ) {
                                                    Err(failure) => Err(failure),
                                                    Ok(more) => message_files(
                                                        rest,
                                                        message,
                                                        depth,
                                                        key,
                                                        value,
                                                        more,
                                                    ),
                                                }
                                            },
                                        },
                                    }
                                }
                            }
                        },
                    }
                }
            },
        }
    }
}

/// The external tensor files that a message names.
pub open spec fn named_files(bytes: Seq<u8>, message: Message, depth: nat) -> Result<
    Seq<Seq<char>>,
    FailureView,
> {
    if depth >= MAX_DEPTH {
        Err(plain_failure("ONNX graph nesting exceeds limit"@))
    } else {
        message_files(bytes, message, depth, None, None, Seq::empty())
    }
}

fn size<'a>(wire: u64, bytes: &'a [u8]) -> (read: (Result<usize, Failure>, &'a [u8]))
    ensures
        read.1@ == take_size(wire as nat, bytes@).1,
        match (read.0, take_size(wire as nat, bytes@).0) {
            (Ok(value), Ok(expected)) => value == expected,
            (Err(failure), Err(expected)) => failure@ == expected,
            _ => false,
        },
{
    if wire == 1 {
        (Ok(8), bytes)
    } else if wire == 5 {
        (Ok(4), bytes)
    } else if wire == 2 {
        let (length, rest) = varint(bytes, 0);
        match length {
            Ok(length) => if length > usize::MAX as u64 {
                (Err(Failure::plain("out of range integral type conversion attempted")), rest)
            } else {
                (Ok(length as usize), rest)
            },
            Err(failure) => (Err(failure), rest),
        }
    } else {
        (Err(Failure::plain("unsupported ONNX wire type")), bytes)
    }
}

fn member(
    message: Message,
    wanted: u64,
    number: u64,
    field: &[u8],
    current: Option<String>,
) -> (result: Result<Option<String>, Failure>)
    ensures
        match (
            result,
            entry_member(message, wanted as nat, number as nat, field@, text::optional(current)),
        ) {
            (Ok(result), Ok(expected)) => text::optional(result) == expected,
            (Err(failure), Err(expected)) => failure@ == expected,
            _ => false,
        },
{
    if message != Message::Entry || number != wanted {
        return Ok(current);
    }
    match text::decode_slice(field) {
        Ok(value) => Ok(Some(value)),
        Err(error) => Err(Failure::plain(error.as_str())),
    }
}

/// The external tensor files that a message names.
pub fn external_files(bytes: &[u8], message: Message, depth: usize) -> (files: Result<
    Vec<String>,
    Failure,
>)
    ensures
        match (files, named_files(bytes@, message, depth as nat)) {
            (Ok(files), Ok(expected)) => text_views(files@) == expected,
            (Err(failure), Err(expected)) => failure@ == expected,
            _ => false,
        },
{
    if depth >= MAX_DEPTH {
        return Err(Failure::plain("ONNX graph nesting exceeds limit"));
    }
    let mut found: Vec<String> = Vec::new();
    assert(text_views(found@) =~= Seq::<Seq<char>>::empty());
    match collect_files(bytes, message, depth, &mut found) {
        Ok(_) => Ok(found),
        Err(failure) => Err(failure),
    }
}

fn collect_files(
    bytes: &[u8],
    message: Message,
    depth: usize,
    found: &mut Vec<String>,
) -> (result: Result<(), Failure>)
    requires
        depth < MAX_DEPTH,
    ensures
        match (
            result,
            message_files(bytes@, message, depth as nat, None, None, text_views(old(found)@)),
        ) {
            (Ok(_), Ok(expected)) => text_views(final(found)@) == expected,
            (Err(failure), Err(expected)) => failure@ == expected,
            _ => false,
        },
    decreases MAX_DEPTH - depth,
{
    let mut data = bytes;
    let mut key: Option<String> = None;
    let mut value: Option<String> = None;
    let ghost whole = message_files(
        bytes@,
        message,
        depth as nat,
        None,
        None,
        text_views(found@),
    );
    while data.len() > 0
        invariant
            depth < MAX_DEPTH,
            whole == message_files(
                bytes@,
                message,
                depth as nat,
                None,
                None,
                text_views(old(found)@),
            ),
            whole == message_files(
                data@,
                message,
                depth as nat,
                text::optional(key),
                text::optional(value),
                text_views(found@),
            ),
        decreases data@.len(),
    {
        let ghost start = data@;
        proof {
            lemma_varint(start, 0);
        }
        let (tag, rest) = varint(data, 0);
        data = rest;
        let tag: u64 = match tag {
            Ok(tag) => tag,
            Err(failure) => return Err(failure),
        };
        proof {
            lemma_varint(data@, 0);
        }
        let number: u64 = tag / 8;
        let wire: u64 = tag % 8;
        if number == 0 {
            return Err(Failure::plain("invalid ONNX field"));
        }
        if wire == 0 {
            let (skipped, rest) = varint(data, 0);
            data = rest;
            if let Err(failure) = skipped {
                return Err(failure);
            }
            continue ;
        }
        let (length, rest) = size(wire, data);
        data = rest;
        let length: usize = match length {
            Ok(length) => length,
            Err(failure) => return Err(failure),
        };
        if length > data.len() {
            return Err(Failure::plain("truncated ONNX field"));
        }
        let field = slice_subrange(data, 0, length);
        let rest = slice_subrange(data, length, data.len());
        assert(field@ =~= data@.take(length as int));
        assert(rest@ =~= data@.skip(length as int));
        data = rest;
        if wire != 2 {
            continue ;
        }
        key = match member(message, 1, number, field, key) {
            Ok(key) => key,
            Err(failure) => return Err(failure),
        };
        value = match member(message, 2, number, field, value) {
            Ok(value) => value,
            Err(failure) => return Err(failure),
        };
        if let Some(child) = child_message(message, number) {
            if depth + 1 >= MAX_DEPTH {
                return Err(Failure::plain("ONNX graph nesting exceeds limit"));
            }
            if let Err(failure) = collect_files(field, child, depth + 1, found) {
                return Err(failure);
            }
        }
    }
    let external = match &key {
        Some(key) => text::same(key.as_str(), "location"),
        None => false,
    };
    if external {
        match value {
            Some(location) => {
                let ghost before = found@;
                found.push(location);
                assert(text_views(found@) =~= text_views(before).push(location@));
            },
            None => {
                return Err(Failure::plain("ONNX external tensor has no location"));
            },
        }
    }
    Ok(())
}

/// The bytes that spell a number of variable length.
pub open spec fn varint_bytes(number: nat) -> Seq<u8>
    decreases number,
{
    if number < 128 {
        seq![number as u8]
    } else {
        seq![(128 + number % 128) as u8] + varint_bytes(number / 128)
    }
}

/// A number of up to 64 bits is read back from the bytes that spell it, and what follows them is
/// left.
pub proof fn law_varint_roundtrip(number: nat, tail: Seq<u8>)
    requires
        number <= u64::MAX,
    ensures
        take_varint(varint_bytes(number) + tail, 0) == (Ok::<nat, FailureView>(number), tail),
{
    lemma_varint_limit_bound(0);
    reveal_with_fuel(varint_limit, 11);
    lemma_varint_roundtrip_from(number, tail, 0);
}

proof fn lemma_varint_roundtrip_from(number: nat, tail: Seq<u8>, taken: nat)
    requires
        taken <= 9,
        number < varint_limit(taken),
    ensures
        take_varint(varint_bytes(number) + tail, taken) == (Ok::<nat, FailureView>(number), tail),
    decreases 9 - taken,
{
    let bytes = varint_bytes(number) + tail;
    if number < 128 {
        assert(bytes.drop_first() =~= tail);
    } else {
        assert(taken < 9);
        assert(bytes.drop_first() =~= varint_bytes(number / 128) + tail);
        lemma_varint_roundtrip_from(number / 128, tail, taken + 1);
    }
}

} // verus!
