//! What tokenizers make of a query, and what is read of their files.

use vstd::prelude::*;
use vstd::string::*;
use vstd::utf8::*;

use crate::base64::{bytes_from, last_bytes, one_byte, read_bytes, six_bits, three_bytes, two_bytes};
use crate::character_map::boundary;
use crate::failure::Failure;
use crate::manifest::TextModel;
use crate::piece_model::{found_in, free_of, piece_views, stands_in};
use crate::query::{make_inputs, query_inputs, QueryInputs};
use crate::tables::TokenEmbeddingTable;
use crate::tokens::{
    prepare_query, sentencepiece_eos, sentencepiece_ids, sentencepiece_path, sentencepiece_refusal,
    tokenize_if_sound, tokenizer_encoding, tokenizer_loads, TextTokenizer,
};

verus! {

/// A SentencePiece model is loaded only if the text that it encodes ends as the pack says, and any other
/// tokenizer only from a file that loads; either way the tokenizer is that of the file.
pub proof fn law_loaded_tokenizers_belong_to_the_pack(
    path: &str,
    file: &[u8],
    expected_eos: u32,
    tokenizer: Result<TextTokenizer, Failure>,
    named: bool,
)
    requires
        call_ensures(TextTokenizer::load, (path, file, expected_eos), tokenizer),
        call_ensures(sentencepiece_path, (path,), named),
    ensures
        tokenizer matches Ok(TextTokenizer::SentencePiece(model)) ==> named && model.file() == file@
            && sentencepiece_refusal(file@) is None && sentencepiece_eos(file@) == Some(
            expected_eos as usize,
        ),
        tokenizer matches Ok(TextTokenizer::HuggingFace(loaded)) ==> !named && loaded.file() == file@
            && tokenizer_loads(file@),
        named && sentencepiece_eos(file@) != Some(expected_eos as usize) ==> tokenizer is Err,
        !named && !tokenizer_loads(file@) ==> tokenizer is Err,
{
}

/// A SentencePiece model encodes a text as its ids and the end-of-text id where it has one, nothing of it
/// masked out.
pub proof fn law_sentencepiece_texts_are_ended(
    tokenizer: &TextTokenizer,
    query: &str,
    encoded: Result<(Vec<i64>, Vec<i64>), Failure>,
    i: int,
)
    requires
        call_ensures(TextTokenizer::encode, (tokenizer, query), encoded),
        tokenizer.is_sound(query@),
        tokenizer is SentencePiece,
    ensures
        tokenizer matches TextTokenizer::SentencePiece(model) ==> {
            let ids = sentencepiece_ids(model.file(), query@);
            let end = sentencepiece_eos(model.file());
            &&& encoded is Ok <==> ids is Ok
            &&& encoded matches Ok((tokens, mask)) ==> {
                &&& tokens@.len() == ids->Ok_0.len() + (if end is Some {
                    1int
                } else {
                    0
                })
                &&& mask@.len() == tokens@.len()
                &&& 0 <= i < ids->Ok_0.len() ==> tokens@[i] == ids->Ok_0[i] as i64
                &&& end matches Some(id) ==> tokens@.last() == id as i64
                &&& 0 <= i < mask@.len() ==> mask@[i] == 1
            }
        },
{
}

/// Any other tokenizer that leaves nothing to chance encodes a text as its ids, with the mask that belongs
/// to them.
pub proof fn law_encoded_texts_keep_their_mask(
    tokenizer: &TextTokenizer,
    query: &str,
    encoded: Result<(Vec<i64>, Vec<i64>), Failure>,
    i: int,
)
    requires
        call_ensures(TextTokenizer::encode, (tokenizer, query), encoded),
        tokenizer.is_sound(query@),
        tokenizer.is_fixed(),
        tokenizer is HuggingFace,
    ensures
        tokenizer matches TextTokenizer::HuggingFace(loaded) ==> {
            let expected = tokenizer_encoding(loaded.file(), query@);
            &&& encoded is Ok <==> expected is Ok
            &&& encoded matches Ok((tokens, mask)) ==> {
                &&& tokens@.len() == expected->Ok_0.0.len()
                &&& mask@.len() == expected->Ok_0.1.len()
                &&& 0 <= i < tokens@.len() ==> tokens@[i] == expected->Ok_0.0[i]
                &&& 0 <= i < mask@.len() ==> mask@[i] == expected->Ok_0.1[i]
            }
        },
{
}

/// A query is tokenized if and only if the tokenizer can encode it.
pub proof fn law_only_sound_queries_are_tokenized(
    tokenizer: &TextTokenizer,
    query: &str,
    context: usize,
    eos_token: u32,
    pad_token: u32,
    tokenized: Option<Result<(Vec<i64>, Vec<i64>), Failure>>,
    sound: bool,
)
    requires
        context > 0,
        call_ensures(tokenize_if_sound, (tokenizer, query, context, eos_token, pad_token), tokenized),
        call_ensures(TextTokenizer::sound, (tokenizer, query), sound),
    ensures
        tokenized is Some <==> sound,
        tokenized matches Some(Ok((tokens, mask))) ==> tokens@.len() == context && mask@.len()
            == context,
{
}

/// What the text model is given for a query is made of the tokens of the query, prepared as the model wants
/// it.
pub proof fn law_queries_become_inputs(
    tokenizer: &TextTokenizer,
    model: &TextModel,
    context: usize,
    query: &str,
    table: Option<(&TokenEmbeddingTable, &[u8])>,
    inputs: Option<Result<QueryInputs, Failure>>,
    prepared: String,
    text: &str,
    encoded: Result<(Vec<i64>, Vec<i64>), Failure>,
    made: Result<QueryInputs, Failure>,
)
    requires
        call_ensures(query_inputs, (tokenizer, model, context, query, table), inputs),
        context > 0,
        table matches Some((table, bytes)) ==> table.describes(bytes@),
        tokenizer.is_fixed(),
        call_ensures(prepare_query, (query, model.lowercase), prepared),
        text@ == prepared@,
        tokenizer.is_sound(text@),
        call_ensures(TextTokenizer::encode, (tokenizer, text), encoded),
        encoded matches Ok((tokens, mask)) ==> call_ensures(
            make_inputs,
            (model, context, tokens, mask, table),
            made,
        ),
    ensures
        inputs is Some,
        encoded is Err ==> inputs->Some_0 is Err,
        encoded is Ok ==> (inputs->Some_0 is Ok <==> made is Ok),
        encoded is Ok && made is Ok ==> inputs->Some_0->Ok_0@ == made->Ok_0@,
{
}

/// The character that stands for six bits.
#[verifier::opaque]
pub open spec fn six_char(bits: int) -> char {
    if bits < 26 {
        ('A' as int + bits) as char
    } else if bits < 52 {
        ('a' as int + bits - 26) as char
    } else if bits < 62 {
        ('0' as int + bits - 52) as char
    } else if bits == 62 {
        '+'
    } else {
        '/'
    }
}

/// Bytes in base64, filled up to four characters.
pub open spec fn base64_text(bytes: Seq<u8>) -> Seq<char>
    decreases bytes.len(),
{
    if bytes.len() == 0 {
        Seq::empty()
    } else if bytes.len() == 1 {
        seq![
            six_char(bytes[0] as int / 4),
            six_char(bytes[0] as int % 4 * 16),
            '=',
            '=',
        ]
    } else if bytes.len() == 2 {
        seq![
            six_char(bytes[0] as int / 4),
            six_char(bytes[0] as int % 4 * 16 + bytes[1] as int / 16),
            six_char(bytes[1] as int % 16 * 4),
            '=',
        ]
    } else {
        seq![
            six_char(bytes[0] as int / 4),
            six_char(bytes[0] as int % 4 * 16 + bytes[1] as int / 16),
            six_char(bytes[1] as int % 16 * 4 + bytes[2] as int / 64),
            six_char(bytes[2] as int % 64),
        ] + base64_text(bytes.skip(3))
    }
}

proof fn lemma_six_char(bits: int)
    requires
        0 <= bits < 64,
    ensures
        six_bits(six_char(bits)) == Some(bits as u32),
        six_char(bits) != '=',
{
    reveal(six_char);
}

proof fn lemma_last_byte(a: u8)
    ensures
        last_bytes(seq![six_char(a as int / 4), six_char(a as int % 4 * 16), '=', '=']) == Some(
            seq![a],
        ),
{
    lemma_six_char(a as int / 4);
    lemma_six_char(a as int % 4 * 16);
    assert(one_byte(six_char(a as int / 4), six_char(a as int % 4 * 16))->Some_0 =~= seq![a]);
}

proof fn lemma_last_two_bytes(a: u8, b: u8)
    ensures
        last_bytes(
            seq![
                six_char(a as int / 4),
                six_char(a as int % 4 * 16 + b as int / 16),
                six_char(b as int % 16 * 4),
                '=',
            ],
        ) == Some(seq![a, b]),
{
    let first = six_char(a as int / 4);
    let second = six_char(a as int % 4 * 16 + b as int / 16);
    let third = six_char(b as int % 16 * 4);
    lemma_six_char(a as int / 4);
    lemma_six_char(a as int % 4 * 16 + b as int / 16);
    lemma_six_char(b as int % 16 * 4);
    assert(two_bytes(first, second, third)->Some_0 =~= seq![a, b]);
}

proof fn lemma_three_bytes(a: u8, b: u8, c: u8)
    ensures
        three_bytes(
            six_char(a as int / 4),
            six_char(a as int % 4 * 16 + b as int / 16),
            six_char(b as int % 16 * 4 + c as int / 64),
            six_char(c as int % 64),
        ) == Some(seq![a, b, c]),
        six_char(c as int % 64) != '=',
{
    let first = six_char(a as int / 4);
    let second = six_char(a as int % 4 * 16 + b as int / 16);
    let third = six_char(b as int % 16 * 4 + c as int / 64);
    let fourth = six_char(c as int % 64);
    lemma_six_char(a as int / 4);
    lemma_six_char(a as int % 4 * 16 + b as int / 16);
    lemma_six_char(b as int % 16 * 4 + c as int / 64);
    lemma_six_char(c as int % 64);
    assert(three_bytes(first, second, third, fourth)->Some_0 =~= seq![a, b, c]);
}

#[verifier::rlimit(50)]
proof fn lemma_base64(front: Seq<char>, bytes: Seq<u8>, gathered: Seq<u8>)
    ensures
        bytes_from(front + base64_text(bytes), front.len() as int, gathered) == Some(
            gathered + bytes,
        ),
    decreases bytes.len(),
{
    let text = front + base64_text(bytes);
    let at = front.len() as int;
    if bytes.len() == 0 {
        assert(gathered + bytes =~= gathered);
    } else if bytes.len() == 1 {
        lemma_last_byte(bytes[0]);
        assert(text.skip(at) =~= base64_text(bytes));
        assert(bytes =~= seq![bytes[0]]);
    } else if bytes.len() == 2 {
        lemma_last_two_bytes(bytes[0], bytes[1]);
        assert(text.skip(at) =~= base64_text(bytes));
        assert(bytes =~= seq![bytes[0], bytes[1]]);
    } else {
        let rest = bytes.skip(3);
        let first = seq![bytes[0], bytes[1], bytes[2]];
        let head = base64_text(bytes).take(4);
        lemma_three_bytes(bytes[0], bytes[1], bytes[2]);
        assert(three_bytes(head[0], head[1], head[2], head[3]) == Some(first));
        assert(text[at] == head[0] && text[at + 1] == head[1] && text[at + 2] == head[2] && text[at
            + 3] == head[3]);
        if rest.len() == 0 {
            assert(base64_text(rest).len() == 0);
            assert(text.skip(at) =~= head);
            assert(bytes =~= first);
        } else {
            lemma_base64(front + head, rest, gathered + first);
            assert(front + head + base64_text(rest) =~= text);
            assert(gathered + first + rest =~= gathered + bytes);
            lemma_base64_length(rest);
            assert(text.len() - at > 4);
        }
    }
}

proof fn lemma_base64_length(bytes: Seq<u8>)
    requires
        bytes.len() > 0,
    ensures
        base64_text(bytes).len() >= 4,
{
}

/// Bytes are read back from base64.
pub proof fn law_base64_is_read_back(contents: Seq<u8>, text: &str, bytes: Option<Vec<u8>>)
    requires
        text@ == base64_text(contents),
        call_ensures(read_bytes, (text,), bytes),
    ensures
        bytes matches Some(bytes) && bytes@ == contents,
{
    lemma_base64(Seq::empty(), contents, Seq::empty());
    assert(Seq::<char>::empty() + base64_text(contents) =~= base64_text(contents));
    assert(Seq::<u8>::empty() + contents =~= contents);
}

/// A piece is found if and only if bytes are the piece with something before and behind it; bytes are free
/// of pieces if and only if none of them is found.
pub proof fn law_pieces_are_found(
    piece: &[u8],
    bytes: &[u8],
    found: bool,
    pieces: &Vec<Vec<u8>>,
    free: bool,
    before: Seq<u8>,
    behind: Seq<u8>,
)
    requires
        call_ensures(found_in, (piece, bytes), found),
        call_ensures(free_of, (pieces, bytes), free),
    ensures
        bytes@ == before + piece@ + behind ==> found,
        found ==> exists|at: int|
            0 <= at <= bytes@.len() - piece@.len() && #[trigger] bytes@.subrange(
                at,
                at + piece@.len(),
            ) == piece@,
        found && (exists|i: int| 0 <= i < pieces@.len() && (#[trigger] pieces@[i])@ == piece@)
            ==> !free,
        !free ==> exists|i: int|
            0 <= i < pieces@.len() && stands_in((#[trigger] pieces@[i])@, bytes@),
{
    let views = piece_views(pieces@);
    if bytes@ == before + piece@ + behind {
        let at = before.len() as int;
        assert(bytes@.subrange(at, at + piece@.len()) =~= piece@);
    }
    if found && (exists|i: int| 0 <= i < pieces@.len() && (#[trigger] pieces@[i])@ == piece@) {
        let i = choose|i: int| 0 <= i < pieces@.len() && (#[trigger] pieces@[i])@ == piece@;
        assert(views[i] == pieces@[i]@);
    }
    if !free {
        let i = choose|i: int| 0 <= i < views.len() && stands_in(#[trigger] views[i], bytes@);
        assert(views[i] == pieces@[i]@);
    }
}

/// A position is between two characters if and only if the byte there does not continue one.
pub proof fn law_boundaries_part_characters(bytes: &[u8], at: usize, b: bool)
    requires
        call_ensures(boundary, (bytes, at), b),
        at <= bytes@.len(),
    ensures
        b <==> at == bytes@.len() || bytes@[at as int] < 0x80 || bytes@[at as int] >= 0xc0,
{
}

} // verus!
