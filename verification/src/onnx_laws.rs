//! Where the external tensors of an ONNX model are named.

use vstd::prelude::*;
use vstd::string::*;
use vstd::utf8::*;

use crate::failure::{Failure, FailureView};
use crate::names::text_views;
use crate::onnx::{
    external_files, field_message, law_varint_roundtrip, message_files, varint_bytes, Message,
};

verus! {

/// A field of a message that holds bytes: its number and how it is held, how many bytes, and the bytes.
pub open spec fn field(number: nat, content: Seq<u8>) -> Seq<u8> {
    varint_bytes(8 * number + 2) + varint_bytes(content.len()) + content
}

/// Whether a field of a message holds another message that can lead to a tensor: the graphs, trainings and
/// functions of a model; the graphs of a training; the nodes and attributes of a function; the nodes, the
/// tensors and the sparse tensors of a graph; the attributes of a node; the graphs, tensors and sparse
/// tensors of an attribute; the tensors of a sparse tensor; and the entries of a tensor.
pub open spec fn leads_to(message: Message, number: nat, inner: Message) -> bool {
    match (message, inner) {
        (Message::Model, Message::Graph) => number == 7,
        (Message::Model, Message::Training) => number == 20,
        (Message::Model, Message::Function) => number == 25,
        (Message::Training, Message::Graph) => number == 1 || number == 2,
        (Message::Function, Message::Node) => number == 7,
        (Message::Function, Message::Attribute) => number == 11,
        (Message::Graph, Message::Node) => number == 1,
        (Message::Graph, Message::Tensor) => number == 5,
        (Message::Graph, Message::Sparse) => number == 15,
        (Message::Node, Message::Attribute) => number == 5,
        (Message::Attribute, Message::Tensor) => number == 5 || number == 10,
        (Message::Attribute, Message::Graph) => number == 6 || number == 11,
        (Message::Attribute, Message::Sparse) => number == 22 || number == 23,
        (Message::Sparse, Message::Tensor) => number == 1 || number == 2,
        (Message::Tensor, Message::Entry) => number == 13,
        _ => false,
    }
}

proof fn lemma_leads_to(message: Message, number: nat, inner: Message)
    ensures
        leads_to(message, number, inner) <==> field_message(message, number) == Some(inner),
{
}

proof fn lemma_varint_bytes(number: nat)
    ensures
        varint_bytes(number).len() > 0,
    decreases number,
{
}

/// What is read of a field, and what comes behind it.
proof fn lemma_field(number: nat, content: Seq<u8>, rest: Seq<u8>)
    requires
        0 < number < 0x2000_0000,
        content.len() <= u64::MAX,
    ensures
        ({
            let bytes = field(number, content) + rest;
            let tag = crate::onnx::take_varint(bytes, 0);
            let size = crate::onnx::take_varint(tag.1, 0);
            &&& bytes.len() > 0
            &&& tag.0 == Ok::<nat, FailureView>(8 * number + 2)
            &&& size.0 == Ok::<nat, FailureView>(content.len())
            &&& size.1 == content + rest
            &&& size.1.take(content.len() as int) == content
            &&& size.1.skip(content.len() as int) == rest
        }),
{
    let head = varint_bytes(8 * number + 2);
    let length = varint_bytes(content.len());
    let bytes = field(number, content) + rest;
    lemma_varint_bytes(8 * number + 2);
    assert(bytes =~= head + (length + (content + rest)));
    law_varint_roundtrip(8 * number + 2, length + (content + rest));
    law_varint_roundtrip(content.len(), content + rest);
    assert((content + rest).take(content.len() as int) =~= content);
    assert((content + rest).skip(content.len() as int) =~= rest);
}

/// A field that leads to a tensor adds the files that its message names, between those of the fields
/// before and behind it; a field that does not adds none.
pub proof fn law_files_of_fields_are_joined(
    message: Message,
    number: nat,
    content: Seq<u8>,
    rest: Seq<u8>,
    depth: nat,
    found: Seq<Seq<char>>,
    inner: Message,
)
    requires
        0 < number < 0x2000_0000,
        content.len() <= usize::MAX,
        message != Message::Entry,
        depth < 63,
    ensures
        leads_to(message, number, inner) ==> message_files(
            field(number, content) + rest,
            message,
            depth,
            None,
            None,
            found,
        ) == match message_files(content, inner, depth + 1, None, None, found) {
            Ok(more) => message_files(rest, message, depth, None, None, more),
            Err(failure) => Err(failure),
        },
        (forall|any: Message| !leads_to(message, number, any)) ==> message_files(
            field(number, content) + rest,
            message,
            depth,
            None,
            None,
            found,
        ) == message_files(rest, message, depth, None, None, found),
{
    lemma_field(number, content, rest);
    lemma_leads_to(message, number, inner);
    assert((8 * number + 2) / 8 == number && (8 * number + 2) % 8 == 2);
    if forall|any: Message| !leads_to(message, number, any) {
        if let Some(any) = field_message(message, number) {
            lemma_leads_to(message, number, any);
            assert(!leads_to(message, number, any));
        }
    }
}

/// Nothing is found where nothing is.
pub proof fn law_empty_messages_name_nothing(
    message: Message,
    depth: nat,
    found: Seq<Seq<char>>,
)
    ensures
        message_files(Seq::empty(), message, depth, None, None, found) == Ok::<
            Seq<Seq<char>>,
            FailureView,
        >(found),
{
}

/// An entry of a tensor names a file if and only if its key is `location`; its value is the file.
pub proof fn law_entries_name_locations(
    key: Seq<char>,
    value: Seq<char>,
    depth: nat,
    found: Seq<Seq<char>>,
)
    requires
        encode_utf8(key).len() <= usize::MAX,
        encode_utf8(value).len() <= usize::MAX,
        depth < 64,
    ensures
        message_files(
            field(1, encode_utf8(key)) + field(2, encode_utf8(value)),
            Message::Entry,
            depth,
            None,
            None,
            found,
        ) == Ok::<Seq<Seq<char>>, FailureView>(
            if key == "location"@ {
                found.push(value)
            } else {
                found
            },
        ),
{
    let first = encode_utf8(key);
    let second = encode_utf8(value);
    encode_utf8_valid_utf8(key);
    encode_utf8_valid_utf8(value);
    encode_utf8_decode_utf8(key);
    encode_utf8_decode_utf8(value);
    let tail = field(2, second);
    lemma_field(1, first, tail);
    lemma_field(2, second, Seq::empty());
    assert(tail + Seq::<u8>::empty() =~= tail);
    assert(message_files(Seq::empty(), Message::Entry, depth, Some(key), Some(value), found) == Ok::<
        Seq<Seq<char>>,
        FailureView,
    >(
        if key == "location"@ {
            found.push(value)
        } else {
            found
        },
    ));
    assert(message_files(tail, Message::Entry, depth, Some(key), None, found) == message_files(
        Seq::empty(),
        Message::Entry,
        depth,
        Some(key),
        Some(value),
        found,
    ));
}

/// The file of an external tensor of the graph of a model is found, whatever it is called.
pub proof fn law_external_tensors_are_found(
    location: Seq<char>,
    data: &[u8],
    files: Result<Vec<String>, Failure>,
)
    requires
        encode_utf8(location).len() <= 0x4000_0000,
        data@ == field(
            7,
            field(
                5,
                field(
                    13,
                    field(1, encode_utf8("location"@)) + field(2, encode_utf8(location)),
                ),
            ),
        ),
        data@.len() <= usize::MAX,
        encode_utf8("location"@).len() <= usize::MAX,
        call_ensures(external_files, (data, Message::Model, 0usize), files),
    ensures
        files matches Ok(files) && text_views(files@) == seq![location],
{
    let entry = field(1, encode_utf8("location"@)) + field(2, encode_utf8(location));
    let tensor = field(13, entry);
    let graph = field(5, tensor);
    let none = Seq::<u8>::empty();
    let empty = Seq::<Seq<char>>::empty();
    law_entries_name_locations("location"@, location, 3, empty);
    assert(tensor + none =~= tensor);
    assert(graph + none =~= graph);
    assert(data@ + none =~= data@);
    law_files_of_fields_are_joined(Message::Tensor, 13, entry, none, 2, empty, Message::Entry);
    law_files_of_fields_are_joined(Message::Graph, 5, tensor, none, 1, empty, Message::Tensor);
    law_files_of_fields_are_joined(Message::Model, 7, graph, none, 0, empty, Message::Graph);
    let one = empty.push(location);
    law_empty_messages_name_nothing(Message::Tensor, 2, one);
    law_empty_messages_name_nothing(Message::Graph, 1, one);
    law_empty_messages_name_nothing(Message::Model, 0, one);
    assert(one =~= seq![location]);
}

} // verus!
