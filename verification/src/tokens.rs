//! Turning a query into the tokens of the text model.

use sentencepiece_rs::SentencePieceProcessor;
use tokenizers::Tokenizer;
use vstd::prelude::*;
use vstd::string::*;
use vstd::utf8::*;

use crate::character_map::characters_kept;
use crate::failure::{caused_failure, plain_failure, Failure, FailureView};
use crate::path::{file_name, path_file_name};
use crate::piece_model::{
    found_in, free_of, is_free_of, is_loadable_model, is_normalizable, loadable_model, model_units,
    parted_pieces, piece_views, read_model_units, read_parted_pieces, stands_in,
};
use crate::text;
use crate::tokenizer_file::{is_safe_tokenizer, tokenizer_safe};

verus! {

/// `sentencepiece_rs::SentencePieceProcessor`, a loaded SentencePiece model.
#[verifier::external_type_specification]
#[verifier::external_body]
pub struct ExSentencePieceProcessor(SentencePieceProcessor);

/// `tokenizers::Tokenizer`, a loaded tokenizer file.
#[verifier::external_type_specification]
#[verifier::external_body]
pub struct ExTokenizer(Tokenizer);

/// The bytes of the model that a SentencePiece processor works with.
pub uninterp spec fn sentencepiece_model(processor: SentencePieceProcessor) -> Seq<u8>;

/// What `SentencePieceProcessor::from_serialized_model` prints for bytes that it refuses, and
/// nothing for those that it loads.
pub uninterp spec fn sentencepiece_refusal(model: Seq<u8>) -> Option<Seq<char>>;

/// What `SentencePieceProcessor::encode_to_ids` returns for a text: the ids, or what its error
/// prints.
pub uninterp spec fn sentencepiece_ids(model: Seq<u8>, query: Seq<char>) -> Result<
    Seq<usize>,
    Seq<char>,
>;

/// What `SentencePieceProcessor::eos_id` returns.
pub uninterp spec fn sentencepiece_eos(model: Seq<u8>) -> Option<usize>;

/// `SentencePieceProcessor::from_serialized_model`: a processor of the given model, or the printed
/// error. Which bytes it refuses is a matter of the bytes alone, and only named. It takes the model's
/// character maps apart by the sizes that they state, which must therefore be true.
#[verifier::external_body]
fn load_sentencepiece(model: &[u8]) -> (loaded: Result<SentencePieceProcessor, String>)
    requires
        is_loadable_model(model@),
    ensures
        match (loaded, sentencepiece_refusal(model@)) {
            (Ok(processor), None) => sentencepiece_model(processor) == model@,
            (Err(error), Some(expected)) => error@ == expected,
            _ => false,
        },
{
    SentencePieceProcessor::from_serialized_model(model).map_err(|error| error.to_string())
}

/// What `SentencePieceProcessor::normalize` returns for a text: the normalized text, or what its error
/// prints.
pub uninterp spec fn sentencepiece_normal(model: Seq<u8>, query: Seq<char>) -> Result<
    Seq<char>,
    Seq<char>,
>;

/// `SentencePieceProcessor::normalize`: the text as the model normalizes it, or the printed error,
/// both only named. It cuts the text where the model's character map ends a match, which must be
/// between two characters.
#[verifier::external_body]
fn sentencepiece_normalize(processor: &SentencePieceProcessor, query: &str) -> (normal: Result<
    String,
    String,
>)
    requires
        is_normalizable(sentencepiece_model(*processor), encode_utf8(query@)),
    ensures
        match (normal, sentencepiece_normal(sentencepiece_model(*processor), query@)) {
            (Ok(normal), Ok(expected)) => normal@ == expected,
            (Err(error), Err(expected)) => error@ == expected,
            _ => false,
        },
{
    processor.normalize(query).map_err(|error| error.to_string())
}

/// Whether a model can encode a text: its character map replaces only whole characters of it, and
/// what it normalizes the text to holds no joined piece that it would have to take apart again.
pub open spec fn is_encodable(model: Seq<u8>, query: Seq<char>) -> bool {
    is_normalizable(model, encode_utf8(query)) && match sentencepiece_normal(model, query) {
        Ok(normal) => is_free_of(parted_pieces(model), encode_utf8(normal)),
        Err(_) => true,
    }
}

/// `SentencePieceProcessor::encode_to_ids`: the ids of a text, or the printed error. Which ids they
/// are is only named; each is a position in the vocabulary, so none exceeds `isize::MAX`. It
/// normalizes the text first. Joined pieces that are marked as unused it takes apart again, which may
/// never end, so there must be none.
#[verifier::external_body]
fn sentencepiece_encode(processor: &SentencePieceProcessor, query: &str) -> (ids: Result<
    Vec<usize>,
    String,
>)
    requires
        is_encodable(sentencepiece_model(*processor), query@),
    ensures
        match (ids, sentencepiece_ids(sentencepiece_model(*processor), query@)) {
            (Ok(ids), Ok(expected)) => ids@ == expected && forall|i: int|
                0 <= i < ids@.len() ==> #[trigger] ids@[i] <= isize::MAX,
            (Err(error), Err(expected)) => error@ == expected,
            _ => false,
        },
{
    processor.encode_to_ids(query).map_err(|error| error.to_string())
}

/// `SentencePieceProcessor::eos_id`: the end-of-text id, where the model has one. Which it is is
/// only named; it is a position in the vocabulary, so it does not exceed `isize::MAX`.
#[verifier::external_body]
fn sentencepiece_end(processor: &SentencePieceProcessor) -> (id: Option<usize>)
    ensures
        id == sentencepiece_eos(sentencepiece_model(*processor)),
        id matches Some(value) ==> value <= isize::MAX,
{
    processor.eos_id()
}

/// The bytes of the file that a tokenizer was loaded from.
pub uninterp spec fn tokenizer_file(tokenizer: Tokenizer) -> Seq<u8>;

/// Whether `Tokenizer::from_bytes` loads a file.
pub uninterp spec fn tokenizer_loads(file: Seq<u8>) -> bool;

/// What `Tokenizer::get_truncation` returns: the maximum length and the stride.
pub uninterp spec fn tokenizer_truncation(file: Seq<u8>) -> Option<(usize, usize)>;

/// How many tokens the tokenizer's post-processor adds to one sequence.
pub uninterp spec fn tokenizer_added(file: Seq<u8>) -> usize;

/// `Tokenizer::from_bytes`: the tokenizer of a file, or the printed error. Which files it loads is
/// a matter of the bytes alone, and only named. The words of the error are left open: they can
/// list unknown tokens in any order. It relies on the parts of the file agreeing with each other.
#[verifier::external_body]
fn load_tokenizer(file: &[u8]) -> (loaded: Result<Tokenizer, String>)
    requires
        is_safe_tokenizer(file@),
    ensures
        loaded is Ok == tokenizer_loads(file@),
        loaded matches Ok(tokenizer) ==> tokenizer_file(tokenizer) == file@,
{
    Tokenizer::from_bytes(file).map_err(|error| error.to_string())
}

/// `Tokenizer::get_truncation`: the maximum length and the stride of the tokenizer's truncation,
/// where it has one. Which they are is only named.
#[verifier::external_body]
fn truncation(tokenizer: &Tokenizer) -> (settings: Option<(usize, usize)>)
    ensures
        settings == tokenizer_truncation(tokenizer_file(*tokenizer)),
{
    tokenizer.get_truncation().map(|settings| (settings.max_length, settings.stride))
}

/// `PostProcessor::added_tokens` of the tokenizer's post-processor, zero where it has none. How
/// many they are is only named.
#[verifier::external_body]
fn added_tokens(tokenizer: &Tokenizer) -> (count: usize)
    ensures
        count == tokenizer_added(tokenizer_file(*tokenizer)),
{
    match tokenizer.get_post_processor() {
        Some(processor) => tokenizers::PostProcessor::added_tokens(processor, false),
        None => 0,
    }
}

/// What the `dropout` of the tokenizer's BPE model is, by its bit pattern.
pub uninterp spec fn tokenizer_dropout(file: Seq<u8>) -> Option<u32>;

/// What the `alpha` of the tokenizer's unigram model is, by its bit pattern.
pub uninterp spec fn tokenizer_alpha(file: Seq<u8>) -> Option<u64>;

/// What `Tokenizer::encode` returns for a text, with special tokens, where nothing is left to
/// chance: the ids and the attention mask, or what its error prints.
pub uninterp spec fn tokenizer_encoding(file: Seq<u8>, query: Seq<char>) -> Result<
    (Seq<u32>, Seq<u32>),
    Seq<char>,
>;

/// The public field `BPE::dropout` of the model that `Tokenizer::get_model` returns, by its bit
/// pattern; a model of another sort has none. Which it is is only named.
#[verifier::external_body]
fn dropout(tokenizer: &Tokenizer) -> (bits: Option<u32>)
    ensures
        bits == tokenizer_dropout(tokenizer_file(*tokenizer)),
{
    match tokenizer.get_model() {
        tokenizers::ModelWrapper::BPE(model) => model.dropout.map(|value| value.to_bits()),
        _ => None,
    }
}

/// The public field `Unigram::alpha` of the model that `Tokenizer::get_model` returns, by its bit
/// pattern; a model of another sort has none. Which it is is only named.
#[verifier::external_body]
fn alpha(tokenizer: &Tokenizer) -> (bits: Option<u64>)
    ensures
        bits == tokenizer_alpha(tokenizer_file(*tokenizer)),
{
    match tokenizer.get_model() {
        tokenizers::ModelWrapper::Unigram(model) => model.alpha.map(|value| value.to_bits()),
        _ => None,
    }
}

/// How the tokenizer pads what it encodes: to which length, and to a multiple of which.
pub uninterp spec fn tokenizer_padding(file: Seq<u8>) -> Option<(Option<usize>, Option<usize>)>;

/// `Tokenizer::get_padding`: the fixed length and the multiple to which the tokenizer pads what it
/// encodes, where it does. Which they are is only named.
#[verifier::external_body]
fn padding(tokenizer: &Tokenizer) -> (settings: Option<(Option<usize>, Option<usize>)>)
    ensures
        settings == tokenizer_padding(tokenizer_file(*tokenizer)),
{
    tokenizer.get_padding().map(
        |settings|
            match settings.strategy {
                tokenizers::PaddingStrategy::Fixed(length) => (
                    Some(length),
                    settings.pad_to_multiple_of,
                ),
                tokenizers::PaddingStrategy::BatchLongest => (None, settings.pad_to_multiple_of),
            },
    )
}

/// A token that was added to a tokenizer: its id, how it is written, how it is written after
/// normalizing, and whether it is looked for there; whether it takes the white space before it, and
/// that after it.
pub struct AddedToken {
    pub id: u32,
    pub content: String,
    pub normal: String,
    pub normalized: bool,
    pub lstrip: bool,
    pub rstrip: bool,
}

/// The value of an [`AddedToken`].
pub struct AddedView {
    pub id: u32,
    pub content: Seq<char>,
    pub normal: Seq<char>,
    pub normalized: bool,
    pub lstrip: bool,
    pub rstrip: bool,
}

impl View for AddedToken {
    type V = AddedView;

    open spec fn view(&self) -> AddedView {
        AddedView {
            id: self.id,
            content: self.content@,
            normal: self.normal@,
            normalized: self.normalized,
            lstrip: self.lstrip,
            rstrip: self.rstrip,
        }
    }
}

impl AddedView {
    /// The text that is looked for.
    pub open spec fn sought(self) -> Seq<char> {
        if self.normalized {
            self.normal
        } else {
            self.content
        }
    }
}

/// The values of added tokens, without their order.
pub open spec fn added_set(tokens: Seq<AddedToken>) -> Set<AddedView> {
    Set::new(|view: AddedView| exists|i: int| 0 <= i < tokens.len() && #[trigger] tokens[i]@ == view)
}

/// The tokens that were added to a tokenizer, without their order.
pub uninterp spec fn tokenizer_tokens(file: Seq<u8>) -> Set<AddedView>;

/// `Tokenizer::get_added_vocabulary`: its `get_added_tokens_decoder`, and for each of these tokens
/// what `simple_id_to_token` returns. The tokens come in any order; which they are is only named.
#[verifier::external_body]
fn added_vocabulary(tokenizer: &Tokenizer) -> (tokens: Vec<AddedToken>)
    ensures
        added_set(tokens@) == tokenizer_tokens(tokenizer_file(*tokenizer)),
{
    let vocabulary = tokenizer.get_added_vocabulary();
    let tokens = vocabulary.get_added_tokens_decoder().iter();
    tokens.map(|(id, token)| AddedToken {
        id: *id,
        content: token.content.clone(),
        normal: vocabulary.simple_id_to_token(*id).unwrap_or_default(),
        normalized: token.normalized,
        lstrip: token.lstrip,
        rstrip: token.rstrip,
    }).collect()
}

/// Whether of two added tokens the second may be looked for in the white space that the first takes,
/// and take what is before it.
pub open spec fn overlap(first: AddedView, second: AddedView) -> bool {
    first.rstrip && second.lstrip && first.normalized == second.normalized && text::is_blank(
        second.sought(),
    )
}

/// Whether an added token may be found in a text: it stands in it, or may do so after normalizing.
pub open spec fn may_be_found(token: AddedView, query: Seq<char>) -> bool {
    token.normalized || stands_in(encode_utf8(token.content), encode_utf8(query))
}

/// Whether two added tokens overlap in a text.
pub open spec fn clash(first: AddedView, second: AddedView, query: Seq<char>) -> bool {
    overlap(first, second) && may_be_found(first, query) && may_be_found(second, query)
}

/// Whether added tokens can be looked for in a text: none is empty, and none lies in the white space
/// that another takes.
pub open spec fn are_sound_tokens(tokens: Set<AddedView>, query: Seq<char>) -> bool {
    &&& forall|token: AddedView| #[trigger] tokens.contains(token) ==> token.sought().len() > 0
    &&& forall|first: AddedView, second: AddedView|
        #![trigger tokens.contains(first), tokens.contains(second)]
        tokens.contains(first) && tokens.contains(second) ==> !clash(first, second, query)
}

/// Whether two added tokens are looked for in the same place by the same text.
pub open spec fn compete(first: AddedView, second: AddedView) -> bool {
    first.id != second.id && first.normalized == second.normalized && first.sought()
        == second.sought()
}

/// Whether no two added tokens are looked for in the same place by the same text.
pub open spec fn are_distinct_tokens(tokens: Set<AddedView>) -> bool {
    forall|first: AddedView, second: AddedView|
        #![trigger tokens.contains(first), tokens.contains(second)]
        tokens.contains(first) && tokens.contains(second) ==> !compete(first, second)
}

/// How many tokens there may be after padding: no memory could hold more.
pub const MAX_PADDING: usize = usize::MAX / 256;

/// Whether a padding stays within what some memory could hold.
pub open spec fn is_sound_padding(settings: Option<(Option<usize>, Option<usize>)>) -> bool {
    match settings {
        None => true,
        Some((length, multiple)) => (length matches Some(length) ==> length <= MAX_PADDING) && (
        multiple matches Some(multiple) ==> multiple <= MAX_PADDING),
    }
}

/// Whether a model leaves nothing to chance: it drops no merges, and takes no samples.
pub open spec fn is_fixed_model(dropout: Option<u32>, alpha: Option<u64>) -> bool {
    (dropout is None || dropout == Some(0u32)) && alpha is None
}

/// Whether a truncation leaves room for the added tokens and has a stride below what is left.
pub open spec fn is_sound_truncation(settings: Option<(usize, usize)>, added: usize) -> bool {
    match settings {
        None => true,
        Some((max_length, stride)) => added <= max_length && (added == max_length || stride
            < max_length - added),
    }
}

/// What `Tokenizer::encode` needs of the file that a tokenizer was loaded from, and of a text: the
/// parts of the file agree, its truncation leaves room for the tokens that it adds, its padding is not
/// too long, and its added tokens can be looked for in the text.
pub open spec fn is_sound_file(file: Seq<u8>, query: Seq<char>) -> bool {
    &&& is_safe_tokenizer(file)
    &&& is_sound_truncation(tokenizer_truncation(file), tokenizer_added(file))
    &&& is_sound_padding(tokenizer_padding(file))
    &&& are_sound_tokens(tokenizer_tokens(file), query)
}

/// Whether `Tokenizer::encode` leaves nothing to chance for the tokenizer of a file: its model does
/// not, and no two added tokens compete.
pub open spec fn is_fixed_file(file: Seq<u8>) -> bool {
    is_fixed_model(tokenizer_dropout(file), tokenizer_alpha(file)) && are_distinct_tokens(
        tokenizer_tokens(file),
    )
}

/// `Tokenizer::encode` with special tokens: the ids and the attention mask of a text, as many of
/// the one as of the other, or the printed error. Which ids come out is only named, and only where
/// nothing is left to chance.
#[verifier::external_body]
fn tokenizer_encode(tokenizer: &Tokenizer, query: &str) -> (encoded: Result<
    (Vec<u32>, Vec<u32>),
    String,
>)
    requires
        is_sound_file(tokenizer_file(*tokenizer), query@),
    ensures
        encoded matches Ok((ids, mask)) ==> ids@.len() == mask@.len(),
        is_fixed_file(tokenizer_file(*tokenizer)) ==> match (encoded, tokenizer_encoding(tokenizer_file(*tokenizer), query@)) {
            (Ok((ids, mask)), Ok(expected)) => ids@ == expected.0 && mask@ == expected.1,
            (Err(error), Err(expected)) => error@ == expected,
            _ => false,
        },
{
    tokenizer
        .encode(query, true)
        .map(|encoding| (encoding.get_ids().to_vec(), encoding.get_attention_mask().to_vec()))
        .map_err(|error| error.to_string())
}

/// What `str::to_lowercase` returns.
pub uninterp spec fn lowercase_text(query: Seq<char>) -> Seq<char>;

/// `str::to_lowercase`: the lower-case equivalent of a text, which is only named.
#[verifier::external_body]
fn lowercase(query: &str) -> (lowered: String)
    ensures
        lowered@ == lowercase_text(query@),
{
    query.to_lowercase()
}

/// A tokenizer that was loaded from a file whose parts agree with each other.
pub struct LoadedTokenizer {
    tokenizer: Tokenizer,
}

impl LoadedTokenizer {
    /// The file that the tokenizer was loaded from.
    pub closed spec fn file(self) -> Seq<u8> {
        tokenizer_file(self.tokenizer)
    }

    #[verifier::type_invariant]
    closed spec fn is_safe(self) -> bool {
        is_safe_tokenizer(self.file())
    }

    /// Whether the tokenizer's own truncation and padding can be carried out, and its added tokens
    /// looked for in a text.
    pub open spec fn is_sound(self, query: Seq<char>) -> bool {
        is_sound_file(self.file(), query)
    }

    fn sound(&self, query: &str) -> (sound: bool)
        ensures
            sound == self.is_sound(query@),
    {
        proof {
            use_type_invariant(self);
        }
        let truncated = match truncation(&self.tokenizer) {
            None => true,
            Some((max_length, stride)) => {
                let added: usize = added_tokens(&self.tokenizer);
                added <= max_length && (added == max_length || stride < max_length - added)
            },
        };
        let padded = match padding(&self.tokenizer) {
            None => true,
            Some((length, multiple)) => {
                let long = match length {
                    Some(length) => length > MAX_PADDING,
                    None => false,
                };
                let far = match multiple {
                    Some(multiple) => multiple > MAX_PADDING,
                    None => false,
                };
                !long && !far
            },
        };
        truncated && padded && sound_tokens(
            &added_vocabulary(&self.tokenizer),
            query,
        )
    }

    fn fixed(&self) -> (fixed: bool)
        ensures
            fixed == is_fixed_file(self.file()),
    {
        let drops = match dropout(&self.tokenizer) {
            Some(bits) => bits != 0,
            None => false,
        };
        !drops && alpha(&self.tokenizer).is_none() && distinct_tokens(
            &added_vocabulary(&self.tokenizer),
        )
    }
}

fn sought(token: &AddedToken) -> (pattern: &str)
    ensures
        pattern@ == token@.sought(),
{
    if token.normalized {
        token.normal.as_str()
    } else {
        token.content.as_str()
    }
}

fn findable(token: &AddedToken, query: &str) -> (b: bool)
    ensures
        b == may_be_found(token@, query@),
{
    token.normalized || found_in(token.content.as_str().as_bytes(), query.as_bytes())
}

fn clashing(first: &AddedToken, second: &AddedToken, query: &str) -> (b: bool)
    ensures
        b == clash(first@, second@, query@),
{
    first.rstrip && second.lstrip && first.normalized == second.normalized && text::blank(
        sought(second),
    ) && findable(first, query) && findable(second, query)
}

fn competing(first: &AddedToken, second: &AddedToken) -> (b: bool)
    ensures
        b == compete(first@, second@),
{
    first.id != second.id && first.normalized == second.normalized && text::same(
        sought(first),
        sought(second),
    )
}

fn sound_tokens(tokens: &Vec<AddedToken>, query: &str) -> (sound: bool)
    ensures
        sound == are_sound_tokens(added_set(tokens@), query@),
{
    let ghost set = added_set(tokens@);
    let mut at: usize = 0;
    while at < tokens.len()
        invariant
            at <= tokens@.len(),
            set == added_set(tokens@),
            forall|i: int| 0 <= i < at ==> (#[trigger] tokens@[i])@.sought().len() > 0,
            forall|i: int, j: int|
                0 <= i < at && 0 <= j < tokens@.len() ==> !clash(
                    (#[trigger] tokens@[i])@,
                    (#[trigger] tokens@[j])@,
                    query@,
                ),
        decreases tokens@.len() - at,
    {
        assert(set.contains(tokens@[at as int]@));
        if text::characters(sought(&tokens[at])).len() == 0 {
            return false;
        }
        let mut other: usize = if tokens[at].rstrip {
            0
        } else {
            tokens.len()
        };
        while other < tokens.len()
            invariant
                at < tokens@.len(),
                other <= tokens@.len(),
                set == added_set(tokens@),
                set.contains(tokens@[at as int]@),
                forall|j: int|
                    0 <= j < other ==> !clash(
                        tokens@[at as int]@,
                        (#[trigger] tokens@[j])@,
                        query@,
                    ),
            decreases tokens@.len() - other,
        {
            if clashing(&tokens[at], &tokens[other], query) {
                assert(set.contains(tokens@[other as int]@));
                return false;
            }
            other = other + 1;
        }
        at = at + 1;
    }
    true
}

fn distinct_tokens(tokens: &Vec<AddedToken>) -> (distinct: bool)
    ensures
        distinct == are_distinct_tokens(added_set(tokens@)),
{
    let ghost set = added_set(tokens@);
    let mut at: usize = 0;
    while at < tokens.len()
        invariant
            at <= tokens@.len(),
            set == added_set(tokens@),
            forall|i: int, j: int|
                0 <= i < at && 0 <= j < tokens@.len() ==> !compete(
                    (#[trigger] tokens@[i])@,
                    (#[trigger] tokens@[j])@,
                ),
        decreases tokens@.len() - at,
    {
        let mut other: usize = 0;
        while other < tokens.len()
            invariant
                at < tokens@.len(),
                other <= tokens@.len(),
                set == added_set(tokens@),
                forall|j: int|
                    0 <= j < other ==> !compete(tokens@[at as int]@, (#[trigger] tokens@[j])@),
            decreases tokens@.len() - other,
        {
            if competing(&tokens[at], &tokens[other]) {
                assert(set.contains(tokens@[at as int]@));
                assert(set.contains(tokens@[other as int]@));
                return false;
            }
            other = other + 1;
        }
        at = at + 1;
    }
    true
}

/// A SentencePiece model with what its file says of the texts that it can encode.
pub struct LoadedModel {
    processor: SentencePieceProcessor,
    units: Vec<u32>,
    parted: Vec<Vec<u8>>,
}

impl LoadedModel {
    /// The model's file.
    pub closed spec fn file(self) -> Seq<u8> {
        sentencepiece_model(self.processor)
    }

    #[verifier::type_invariant]
    closed spec fn is_described(self) -> bool {
        self.units@ == model_units(self.file()) && piece_views(self.parted@) == parted_pieces(
            self.file(),
        )
    }

    fn sound(&self, query: &str) -> (sound: bool)
        ensures
            sound == is_encodable(self.file(), query@),
    {
        proof {
            use_type_invariant(self);
        }
        if !characters_kept(&self.units, query.as_bytes()) {
            return false;
        }
        match sentencepiece_normalize(&self.processor, query) {
            Ok(normal) => free_of(&self.parted, normal.as_str().as_bytes()),
            Err(_) => true,
        }
    }
}

/// The tokenizer of a text model.
pub enum TextTokenizer {
    HuggingFace(Box<LoadedTokenizer>),
    SentencePiece(Box<LoadedModel>),
}

/// Whether a path names a SentencePiece model: its extension is `model`.
pub open spec fn is_sentencepiece_path(path: Seq<char>) -> bool {
    match path_file_name(path) {
        Some(name) => name.len() > 6 && text::finishes_with(name, ".model"@),
        None => false,
    }
}

/// Whether a path names a SentencePiece model.
pub fn sentencepiece_path(path: &str) -> (named: bool)
    ensures
        named == is_sentencepiece_path(path@),
{
    match file_name(path) {
        Some(name) => text::characters(name.as_str()).len() > 6 && text::ends_with(
            name.as_str(),
            ".model",
        ),
        None => false,
    }
}

/// The failure of a tokenizer that does not load.
pub open spec fn load_failure(path: Seq<char>, cause: Seq<char>) -> FailureView {
    caused_failure("load semantic tokenizer "@ + path, cause)
}

/// The cause of a failure to load a SentencePiece model whose character map states a false size.
pub const BROKEN_MAP: &'static str = "the character map of the model is broken";

/// The cause of a failure to load a tokenizer file that is no text.
pub const NOT_TEXT: &'static str = "stream did not contain valid UTF-8";

/// The cause of a failure to load a tokenizer file whose parts do not agree with each other.
pub const BROKEN_FILE: &'static str = "the parts of the tokenizer file do not agree";

/// Why a tokenizer file is not even tried.
pub open spec fn file_fault(file: Seq<u8>) -> Seq<char> {
    if valid_utf8(file) {
        BROKEN_FILE@
    } else {
        NOT_TEXT@
    }
}

/// What a SentencePiece id is as a token: the id itself.
pub open spec fn id_tokens(ids: Seq<usize>) -> Seq<i64> {
    ids.map_values(|id: usize| id as i64)
}

/// The tokens of a text that SentencePiece has encoded: its ids, then the end-of-text id where the
/// model has one.
pub open spec fn ended_tokens(ids: Seq<usize>, end: Option<usize>) -> Seq<i64> {
    match end {
        Some(id) => id_tokens(ids).push(id as i64),
        None => id_tokens(ids),
    }
}

/// Ends encoded ids and masks all of them in.
pub fn end_tokens(ids: &Vec<usize>, end: Option<usize>) -> (tokens: (Vec<i64>, Vec<i64>))
    requires
        forall|i: int| 0 <= i < ids@.len() ==> #[trigger] ids@[i] <= i64::MAX,
        end matches Some(id) ==> id <= i64::MAX,
    ensures
        tokens.0@ == ended_tokens(ids@, end),
        tokens.1@ == Seq::new(tokens.0@.len(), |i: int| 1i64),
{
    let mut values: Vec<i64> = Vec::new();
    let mut mask: Vec<i64> = Vec::new();
    let mut position: usize = 0;
    while position < ids.len()
        invariant
            position <= ids@.len(),
            values@ == id_tokens(ids@.take(position as int)),
            mask@ == Seq::new(position as nat, |i: int| 1i64),
            forall|i: int| 0 <= i < ids@.len() ==> #[trigger] ids@[i] <= i64::MAX,
        decreases ids@.len() - position,
    {
        values.push(ids[position] as i64);
        mask.push(1);
        assert(values@ =~= id_tokens(ids@.take(position + 1)));
        assert(mask@ =~= Seq::new((position + 1) as nat, |i: int| 1i64));
        position = position + 1;
    }
    assert(ids@.take(position as int) =~= ids@);
    if let Some(id) = end {
        values.push(id as i64);
        mask.push(1);
    }
    assert(mask@ =~= Seq::new(values@.len(), |i: int| 1i64));
    (values, mask)
}

/// What ids and mask values are as the model's input: the same numbers.
pub open spec fn widened(values: Seq<u32>) -> Seq<i64> {
    values.map_values(|value: u32| value as i64)
}

fn widen(values: &Vec<u32>) -> (wide: Vec<i64>)
    ensures
        wide@ == widened(values@),
{
    let mut wide: Vec<i64> = Vec::new();
    let mut position: usize = 0;
    while position < values.len()
        invariant
            position <= values@.len(),
            wide@ == widened(values@.take(position as int)),
        decreases values@.len() - position,
    {
        wide.push(values[position] as i64);
        assert(wide@ =~= widened(values@.take(position + 1)));
        position = position + 1;
    }
    assert(values@.take(position as int) =~= values@);
    wide
}

impl TextTokenizer {
    /// Loads the tokenizer of a text model from the bytes of its file.
    pub fn load(path: &str, file: &[u8], expected_eos: u32) -> (tokenizer: Result<Self, Failure>)
        ensures
            is_sentencepiece_path(path@) ==> if !is_loadable_model(file@) {
                tokenizer matches Err(failure) && failure@ == load_failure(path@, BROKEN_MAP@)
            } else {
                match sentencepiece_refusal(file@) {
                    Some(error) => tokenizer matches Err(failure) && failure@ == load_failure(
                        path@,
                        error,
                    ),
                    None => if sentencepiece_eos(file@) == Some(expected_eos as usize) {
                        tokenizer matches Ok(TextTokenizer::SentencePiece(model)) && model.file()
                            == file@
                    } else {
                        tokenizer matches Err(failure) && failure@ == plain_failure(
                            "semantic tokenizer EOS does not match the model pack"@,
                        )
                    },
                }
            },
            !is_sentencepiece_path(path@) ==> if !is_safe_tokenizer(file@) {
                tokenizer matches Err(failure) && failure@ == load_failure(path@, file_fault(file@))
            } else if tokenizer_loads(file@) {
                tokenizer matches Ok(TextTokenizer::HuggingFace(loaded)) && loaded.file() == file@
            } else {
                tokenizer matches Err(failure) && failure@.message == "load semantic tokenizer "@
                    + path@ && failure@.cause is Some
            },
    {
        let message = text::join("load semantic tokenizer ", path);
        if sentencepiece_path(path) {
            if !loadable_model(file) {
                return Err(Failure::caused(message.as_str(), BROKEN_MAP));
            }
            let processor = match load_sentencepiece(file) {
                Ok(processor) => processor,
                Err(error) => return Err(Failure::caused(message.as_str(), error.as_str())),
            };
            let matching = match sentencepiece_end(&processor) {
                Some(id) => id == expected_eos as usize,
                None => false,
            };
            if !matching {
                return Err(
                    Failure::plain("semantic tokenizer EOS does not match the model pack"),
                );
            }
            let units = read_model_units(file);
            let parted = read_parted_pieces(file);
            Ok(TextTokenizer::SentencePiece(Box::new(LoadedModel { processor, units, parted })))
        } else {
            if !tokenizer_safe(file) {
                let fault = match text::decode_slice(file) {
                    Ok(_) => BROKEN_FILE,
                    Err(_) => NOT_TEXT,
                };
                return Err(Failure::caused(message.as_str(), fault));
            }
            match load_tokenizer(file) {
                Ok(tokenizer) => Ok(
                    TextTokenizer::HuggingFace(Box::new(LoadedTokenizer { tokenizer })),
                ),
                Err(error) => Err(Failure::caused(message.as_str(), error.as_str())),
            }
        }
    }

    /// Whether the tokenizer can encode a text: its own truncation and padding can be carried out,
    /// its added tokens looked for, its character map replaces only whole characters, and no piece has
    /// to be taken apart again.
    pub open spec fn is_sound(&self, query: Seq<char>) -> bool {
        match self {
            TextTokenizer::HuggingFace(tokenizer) => tokenizer.is_sound(query),
            TextTokenizer::SentencePiece(model) => is_encodable(model.file(), query),
        }
    }

    /// Tells whether the tokenizer can encode a text.
    pub fn sound(&self, query: &str) -> (sound: bool)
        ensures
            sound == self.is_sound(query@),
    {
        match self {
            TextTokenizer::HuggingFace(tokenizer) => tokenizer.sound(query),
            TextTokenizer::SentencePiece(model) => model.sound(query),
        }
    }

    /// Whether the tokenizer leaves nothing to chance.
    pub open spec fn is_fixed(&self) -> bool {
        match self {
            TextTokenizer::HuggingFace(tokenizer) => is_fixed_file(tokenizer.file()),
            TextTokenizer::SentencePiece(_) => true,
        }
    }

    /// Tells whether the tokenizer leaves nothing to chance, so that a query always has the same
    /// tokens.
    pub fn fixed(&self) -> (fixed: bool)
        ensures
            fixed == self.is_fixed(),
    {
        match self {
            TextTokenizer::HuggingFace(tokenizer) => tokenizer.fixed(),
            TextTokenizer::SentencePiece(_) => true,
        }
    }

    /// The tokens of a text and their attention mask, or why it has none, where the tokenizer leaves
    /// nothing to chance.
    pub open spec fn encoding(&self, query: Seq<char>) -> Result<(Seq<i64>, Seq<i64>), Seq<char>> {
        match self {
            TextTokenizer::HuggingFace(tokenizer) => match tokenizer_encoding(
                tokenizer.file(),
                query,
            ) {
                Ok((ids, mask)) => Ok((widened(ids), widened(mask))),
                Err(error) => Err(error),
            },
            TextTokenizer::SentencePiece(model) => match sentencepiece_ids(model.file(), query) {
                Ok(ids) => {
                    let tokens = ended_tokens(ids, sentencepiece_eos(model.file()));
                    Ok((tokens, Seq::new(tokens.len(), |i: int| 1i64)))
                },
                Err(error) => Err(error),
            },
        }
    }

    /// The tokens of a text and their attention mask, before they are fitted to the model.
    pub fn encode(&self, query: &str) -> (encoded: Result<(Vec<i64>, Vec<i64>), Failure>)
        requires
            self.is_sound(query@),
        ensures
            encoded matches Ok((tokens, mask)) ==> tokens@.len() == mask@.len(),
            self.is_fixed() ==> match (encoded, self.encoding(query@)) {
                (Ok((tokens, mask)), Ok(expected)) => tokens@ == expected.0 && mask@ == expected.1,
                (Err(failure), Err(error)) => failure@ == plain_failure(error),
                _ => false,
            },
    {
        match self {
            TextTokenizer::HuggingFace(loaded) => match tokenizer_encode(&loaded.tokenizer, query) {
                Ok((ids, mask)) => Ok((widen(&ids), widen(&mask))),
                Err(error) => Err(Failure::plain(error.as_str())),
            },
            TextTokenizer::SentencePiece(model) => match sentencepiece_encode(
                &model.processor,
                query,
            ) {
                Ok(ids) => Ok(end_tokens(&ids, sentencepiece_end(&model.processor))),
                Err(error) => Err(Failure::plain(error.as_str())),
            },
        }
    }
}

/// Tokens brought to the length of the model's context: cut off, with the end-of-text token last,
/// or filled up with padding.
pub open spec fn fitted_tokens(tokens: Seq<i64>, context: nat, eos: u32, pad: u32) -> Seq<i64> {
    Seq::new(
        context,
        |i: int|
            if tokens.len() > context && i == context - 1 {
                eos as i64
            } else if i < tokens.len() {
                tokens[i]
            } else {
                pad as i64
            },
    )
}

/// The attention mask of fitted tokens: padding is masked out.
pub open spec fn fitted_mask(tokens: nat, mask: Seq<i64>, context: nat) -> Seq<i64> {
    Seq::new(
        context,
        |i: int|
            if tokens > context && i == context - 1 {
                1i64
            } else if i < mask.len() {
                mask[i]
            } else {
                0i64
            },
    )
}

/// Fitted tokens are as many as the context has room for. Tokens that fit are all kept and masked as
/// before, and what is filled up is masked out; tokens that do not fit end with the end-of-text
/// token, which is not masked out.
pub proof fn law_fitted_tokens(tokens: Seq<i64>, mask: Seq<i64>, context: nat, eos: u32, pad: u32)
    requires
        context > 0,
        tokens.len() == mask.len(),
    ensures
        fitted_tokens(tokens, context, eos, pad).len() == context,
        fitted_mask(tokens.len(), mask, context).len() == context,
        tokens.len() <= context ==> fitted_tokens(tokens, context, eos, pad).take(
            tokens.len() as int,
        ) == tokens && fitted_mask(tokens.len(), mask, context).take(tokens.len() as int) == mask,
        forall|i: int|
            tokens.len() <= i < context ==> fitted_tokens(tokens, context, eos, pad)[i] == pad as i64
                && #[trigger] fitted_mask(tokens.len(), mask, context)[i] == 0,
        tokens.len() > context ==> fitted_tokens(tokens, context, eos, pad).last() == eos as i64
            && fitted_mask(tokens.len(), mask, context).last() == 1,
{
    if tokens.len() <= context {
        assert(fitted_tokens(tokens, context, eos, pad).take(tokens.len() as int) =~= tokens);
        assert(fitted_mask(tokens.len(), mask, context).take(tokens.len() as int) =~= mask);
    }
}

/// Brings encoded tokens to the length of the model's context.
pub fn fit_tokens(
    tokens: Vec<i64>,
    mask: Vec<i64>,
    context: usize,
    eos_token: u32,
    pad_token: u32,
) -> (fitted: (Vec<i64>, Vec<i64>))
    requires
        context > 0,
        tokens@.len() > context ==> mask@.len() >= context,
    ensures
        fitted.0@ == fitted_tokens(tokens@, context as nat, eos_token, pad_token),
        fitted.1@ == fitted_mask(tokens@.len(), mask@, context as nat),
{
    let ghost given = tokens@;
    let ghost given_mask = mask@;
    let mut tokens = tokens;
    let mut mask = mask;
    if tokens.len() > context {
        tokens.truncate(context);
        mask.truncate(context);
        tokens.set(context - 1, eos_token as i64);
        mask.set(context - 1, 1);
    }
    tokens.resize(context, pad_token as i64);
    mask.resize(context, 0);
    assert(tokens@ =~= fitted_tokens(given, context as nat, eos_token, pad_token));
    assert(mask@ =~= fitted_mask(given.len(), given_mask, context as nat));
    (tokens, mask)
}

/// The text that a query is tokenized as.
pub open spec fn prepared_text(query: Seq<char>, lowered: bool) -> Seq<char> {
    if lowered {
        lowercase_text(query)
    } else {
        query
    }
}

/// The text that a query is tokenized as: in lower case, where the model was trained so.
pub fn prepare_query(query: &str, lowered: bool) -> (prepared: String)
    ensures
        prepared@ == prepared_text(query@, lowered),
{
    if lowered {
        lowercase(query)
    } else {
        query.to_owned()
    }
}

/// The mask that the model is given: padding takes part where the model was trained so.
pub fn query_mask(mask: Vec<i64>, mask_padding: bool) -> (result: Vec<i64>)
    ensures
        mask_padding ==> result@ == mask@,
        !mask_padding ==> result@ == Seq::new(mask@.len(), |i: int| 1i64),
{
    if mask_padding {
        return mask;
    }
    let mut result: Vec<i64> = Vec::new();
    result.resize(mask.len(), 1);
    assert(result@ =~= Seq::new(mask@.len(), |i: int| 1i64));
    result
}

/// The fitted tokens of a query and their mask, or why it has none, from what the tokenizer makes of
/// it.
pub open spec fn fitted_encoding(
    encoding: Result<(Seq<i64>, Seq<i64>), Seq<char>>,
    context: nat,
    eos: u32,
    pad: u32,
) -> Result<(Seq<i64>, Seq<i64>), FailureView> {
    match encoding {
        Ok((tokens, mask)) => Ok(
            (
                fitted_tokens(tokens, context, eos, pad),
                fitted_mask(tokens.len(), mask, context),
            ),
        ),
        Err(error) => Err(plain_failure(error)),
    }
}

/// Tokenizes a query and brings the tokens to the length of the model's context.
pub fn tokenize(
    tokenizer: &TextTokenizer,
    query: &str,
    context: usize,
    eos_token: u32,
    pad_token: u32,
) -> (tokenized: Result<(Vec<i64>, Vec<i64>), Failure>)
    requires
        context > 0,
        tokenizer.is_sound(query@),
    ensures
        tokenized matches Ok((tokens, mask)) ==> tokens@.len() == context && mask@.len() == context,
        tokenizer.is_fixed() ==> match (
            tokenized,
            fitted_encoding(tokenizer.encoding(query@), context as nat, eos_token, pad_token),
        ) {
            (Ok((tokens, mask)), Ok(expected)) => tokens@ == expected.0 && mask@ == expected.1,
            (Err(failure), Err(expected)) => failure@ == expected,
            _ => false,
        },
{
    match tokenizer.encode(query) {
        Ok((tokens, mask)) => Ok(fit_tokens(tokens, mask, context, eos_token, pad_token)),
        Err(failure) => Err(failure),
    }
}

/// Tokenizes a query, unless the tokenizer cannot encode it.
pub fn tokenize_if_sound(
    tokenizer: &TextTokenizer,
    query: &str,
    context: usize,
    eos_token: u32,
    pad_token: u32,
) -> (tokenized: Option<Result<(Vec<i64>, Vec<i64>), Failure>>)
    requires
        context > 0,
    ensures
        tokenized is Some == tokenizer.is_sound(query@),
        tokenized matches Some(Ok((tokens, mask))) ==> tokens@.len() == context && mask@.len()
            == context,
        tokenizer.is_sound(query@) && tokenizer.is_fixed() ==> match (
            tokenized,
            fitted_encoding(tokenizer.encoding(query@), context as nat, eos_token, pad_token),
        ) {
            (Some(Ok((tokens, mask))), Ok(expected)) => tokens@ == expected.0 && mask@
                == expected.1,
            (Some(Err(failure)), Err(expected)) => failure@ == expected,
            _ => false,
        },
{
    if tokenizer.sound(query) {
        Some(tokenize(tokenizer, query, context, eos_token, pad_token))
    } else {
        None
    }
}

} // verus!
