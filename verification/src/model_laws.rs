//! Which models are accepted, and what they are given for a query.

use vstd::prelude::*;
use vstd::string::*;

use crate::failure::Failure;
use crate::index_laws::{four_bytes, law_numbers_are_little_endian};
use crate::manifest::{
    check_index, default_eos_token, default_image_input, default_image_output, default_mask_padding,
    default_text_input, default_text_output, validate_manifest, ImageModel, Manifest, TextModel,
    TextProjectionModel, TokenEmbeddingModel,
};
use crate::path::file_name;
use crate::query::{make_inputs, QueryInputs};
use crate::ranking_laws::says_something;
use crate::tables::{
    number_at, table_row, table_rows, table_scale, token_fault, tokens_fault, TextProjection,
    TokenEmbeddingTable,
};
use crate::tokens::{
    end_tokens, fit_tokens, lowercase_text, prepare_query, query_mask, sentencepiece_path, tokenize,
    TextTokenizer,
};

verus! {

/// Whether an image model has an input of some size: either one of pixels, or one of patches for which
/// everything is said.
pub open spec fn has_input_size(image: ImageModel) -> bool {
    ||| image.patch_size is None && image.max_num_patches is None && image.width > 0 && image.height
        > 0
    ||| {
        &&& image.patch_size is Some
        &&& image.patch_size->Some_0 > 0
        &&& image.max_num_patches is Some
        &&& image.max_num_patches->Some_0 > 0
        &&& image.pixel_attention_mask is Some
        &&& image.spatial_shapes is Some
        &&& image.supported_shapes@.len() > 0
        &&& forall|i: int|
            0 <= i < image.supported_shapes@.len() ==> (#[trigger] image.supported_shapes@[i])[0] > 0
                && image.supported_shapes@[i][1] > 0 && image.supported_shapes@[i][0]
                * image.supported_shapes@[i][1] <= image.max_num_patches->Some_0
    }
}

/// A manifest is accepted if and only if it is of the known format, has an id and a version that say
/// something, embeddings that are not empty, room for more than one token, positive standard deviations
/// and an image input of some size.
pub proof fn law_accepted_manifests(manifest: &Manifest, result: Result<(), Failure>)
    requires
        call_ensures(validate_manifest, (manifest,), result),
    ensures
        result is Ok <==> {
            &&& manifest.format == 1
            &&& says_something(manifest.id@)
            &&& says_something(manifest.version@)
            &&& manifest.dimensions > 0
            &&& manifest.context_length > 1
            &&& 0 < manifest.image.std[0] < 0x7f80_0000
            &&& 0 < manifest.image.std[1] < 0x7f80_0000
            &&& 0 < manifest.image.std[2] < 0x7f80_0000
            &&& has_input_size(manifest.image)
        },
{
    let std = manifest.image.std;
    assert((forall|i: int|
        0 <= i < 3 ==> crate::manifest::is_positive_finite(#[trigger] manifest.image.std[i])) <==> (0
        < std[0] < 0x7f80_0000 && 0 < std[1] < 0x7f80_0000 && 0 < std[2] < 0x7f80_0000)) by {
        if forall|i: int|
            0 <= i < 3 ==> crate::manifest::is_positive_finite(#[trigger] manifest.image.std[i]) {
            assert(crate::manifest::is_positive_finite(std[0]));
            assert(crate::manifest::is_positive_finite(std[1]));
            assert(crate::manifest::is_positive_finite(std[2]));
        }
    }
}

/// An index is searched with a model if and only if it was made with that version of it and holds
/// embeddings of its size.
pub proof fn law_indexes_belong_to_their_model(
    index_model: &str,
    index_dimensions: usize,
    manifest: &Manifest,
    result: Result<(), Failure>,
)
    requires
        call_ensures(check_index, (index_model, index_dimensions, manifest), result),
    ensures
        result is Ok <==> index_model@ == manifest.id@ + seq!['@'] + manifest.version@
            && index_dimensions == manifest.dimensions,
{
    reveal_strlit("@");
    assert("@"@ =~= seq!['@']);
}

/// The number at an offset is the one that its four bytes spell.
pub proof fn lemma_number(bytes: Seq<u8>, offset: int)
    requires
        0 <= offset,
        offset + 4 <= bytes.len(),
    ensures
        number_at(bytes, offset) == four_bytes(bytes, offset),
{
    law_numbers_are_little_endian(bytes.subrange(offset, offset + 4));
}

/// A token table is loaded if and only if it begins with `SKWDTOK1`, says of itself what the manifest
/// says, and has exactly one byte for each value; it is then what the manifest says.
pub proof fn law_loaded_tables(
    bytes: &[u8],
    model: &TokenEmbeddingModel,
    scale_matches: bool,
    table: Result<TokenEmbeddingTable, Failure>,
)
    requires
        call_ensures(TokenEmbeddingTable::load, (bytes, model, scale_matches), table),
    ensures
        table is Ok <==> {
            &&& bytes@.len() == 24 + model.rows * model.dimensions
            &&& bytes@.take(8) == seq![0x53u8, 0x4b, 0x57, 0x44, 0x54, 0x4f, 0x4b, 0x31]
            &&& four_bytes(bytes@, 8) == model.rows
            &&& four_bytes(bytes@, 12) == model.dimensions
            &&& scale_matches
            &&& bytes@[20] == model.zero_point
            &&& model.rows * model.dimensions <= usize::MAX
        },
        table matches Ok(table) ==> table.rows == model.rows && table.dimensions == model.dimensions
            && table.zero_point == model.zero_point,
{
    assert(crate::tables::TOKEN_EMBEDDING_MAGIC@ =~= seq![
        0x53u8,
        0x4b,
        0x57,
        0x44,
        0x54,
        0x4f,
        0x4b,
        0x31,
    ]);
    assert(0 <= model.rows * model.dimensions) by (nonlinear_arith);
    if bytes@.len() >= 24 {
        lemma_number(bytes@, 8);
        lemma_number(bytes@, 12);
    }
}

/// The scale of a token table stands in the last four bytes before its zero point.
pub proof fn law_table_scales(bytes: &[u8], scale: Option<u32>)
    requires
        call_ensures(table_scale, (bytes,), scale),
    ensures
        scale is Some <==> bytes@.len() >= 24,
        scale matches Some(bits) ==> bits == four_bytes(bytes@, 16),
{
    if bytes@.len() >= 24 {
        lemma_number(bytes@, 16);
    }
}

proof fn lemma_tokens_fault(table: TokenEmbeddingTable, tokens: Seq<i64>)
    ensures
        tokens_fault(table, tokens) is None <==> forall|i: int|
            0 <= i < tokens.len() ==> 0 <= #[trigger] tokens[i] < table.rows,
    decreases tokens.len(),
{
    if tokens.len() > 0 {
        let rest = tokens.drop_first();
        lemma_tokens_fault(table, rest);
        assert forall|i: int| 0 <= i < rest.len() implies #[trigger] rest[i] == tokens[i + 1] by {
        }
        if tokens_fault(table, tokens) is None {
            assert forall|i: int| 0 <= i < tokens.len() implies 0 <= #[trigger] tokens[i]
                < table.rows by {
                if i > 0 {
                    assert(rest[i - 1] == tokens[i]);
                }
            }
        }
        if forall|i: int| 0 <= i < tokens.len() ==> 0 <= #[trigger] tokens[i] < table.rows {
            assert(0 <= tokens[0] < table.rows);
            assert(token_fault(table, tokens[0]) is None);
        }
    }
}

proof fn lemma_rows(bytes: Seq<u8>, table: TokenEmbeddingTable, tokens: Seq<i64>, at: int, column: int)
    requires
        0 <= at < tokens.len(),
        0 <= column < table.dimensions,
    ensures
        table_rows(bytes, table, tokens).len() == tokens.len() * table.dimensions,
        0 <= at * table.dimensions + column < tokens.len() * table.dimensions,
        table_rows(bytes, table, tokens)[at * table.dimensions + column] == table_row(
            bytes,
            table,
            tokens[at] as int,
        )[column],
    decreases tokens.len(),
{
    let rest = tokens.drop_last();
    let dimensions = table.dimensions as int;
    assert(tokens.len() * dimensions == rest.len() * dimensions + dimensions) by (nonlinear_arith)
        requires
            rest.len() == tokens.len() - 1,
    ;
    assert(0 <= at * dimensions) by (nonlinear_arith)
        requires
            0 <= at,
            0 <= dimensions,
    ;
    if rest.len() > 0 {
        lemma_rows(
            bytes,
            table,
            rest,
            if at < rest.len() {
                at
            } else {
                0
            },
            column,
        );
    } else {
        assert(table_rows(bytes, table, rest).len() == 0);
        assert(rest.len() * dimensions == 0) by (nonlinear_arith)
            requires
                rest.len() == 0,
        ;
    }
    if at < rest.len() {
        assert(rest[at] == tokens[at]);
    } else {
        assert(at * dimensions == rest.len() * dimensions) by (nonlinear_arith)
            requires
                at == rest.len(),
        ;
    }
}

/// Tokens are looked up if and only if each has a row in the table. The rows stand in the order of the
/// tokens, and each value is its byte less the zero point.
pub proof fn law_rows_are_looked_up(
    table: &TokenEmbeddingTable,
    bytes: &[u8],
    tokens: &[i64],
    values: Result<Vec<i32>, Failure>,
    at: int,
    column: int,
)
    requires
        call_ensures(TokenEmbeddingTable::lookup, (table, bytes, tokens), values),
        bytes@.len() == 24 + table.rows * table.dimensions,
    ensures
        values is Ok <==> forall|i: int|
            0 <= i < tokens@.len() ==> 0 <= #[trigger] tokens@[i] < table.rows,
        values is Ok && 0 <= at < tokens@.len() && 0 <= column < table.dimensions ==> {
            &&& values->Ok_0@.len() == tokens@.len() * table.dimensions
            &&& values->Ok_0@[at * table.dimensions + column] == bytes@[24 + tokens@[at]
                * table.dimensions + column] - table.zero_point
        },
{
    lemma_tokens_fault(*table, tokens@);
    if values is Ok && 0 <= at < tokens@.len() && 0 <= column < table.dimensions {
        lemma_rows(bytes@, *table, tokens@, at, column);
    }
}

/// A text projection is loaded if and only if it begins with `SKWDPRJ1`, has the sizes that the manifest
/// gives, and exactly four bytes for each weight; it then has these sizes.
pub proof fn law_loaded_projections(
    bytes: &[u8],
    model: &TextProjectionModel,
    projection: Result<TextProjection, Failure>,
)
    requires
        call_ensures(TextProjection::load, (bytes, model), projection),
    ensures
        projection is Ok <==> {
            &&& bytes@.len() == 16 + 4 * (model.input_dimensions * model.output_dimensions)
            &&& bytes@.take(8) == seq![0x53u8, 0x4b, 0x57, 0x44, 0x50, 0x52, 0x4a, 0x31]
            &&& four_bytes(bytes@, 8) == model.input_dimensions
            &&& four_bytes(bytes@, 12) == model.output_dimensions
            &&& model.input_dimensions * model.output_dimensions <= usize::MAX
        },
        projection matches Ok(projection) ==> projection.input_dimensions == model.input_dimensions
            && projection.output_dimensions == model.output_dimensions,
{
    assert(crate::tables::TEXT_PROJECTION_MAGIC@ =~= seq![
        0x53u8,
        0x4b,
        0x57,
        0x44,
        0x50,
        0x52,
        0x4a,
        0x31,
    ]);
    assert(0 <= model.input_dimensions * model.output_dimensions) by (nonlinear_arith);
    if bytes@.len() >= 16 {
        lemma_number(bytes@, 8);
        lemma_number(bytes@, 12);
    }
}

/// The weights of a text projection stand row by row, four bytes each.
pub proof fn law_weights_stand_in_rows(
    projection: &TextProjection,
    bytes: &[u8],
    row: usize,
    weights: Vec<u32>,
    column: int,
)
    requires
        call_ensures(TextProjection::weights, (projection, bytes, row), weights),
        bytes@.len() == 16 + 4 * (projection.input_dimensions * projection.output_dimensions),
        row < projection.input_dimensions,
    ensures
        weights@.len() == projection.output_dimensions,
        0 <= column < projection.output_dimensions ==> weights@[column] == four_bytes(
            bytes@,
            16 + 4 * (row * projection.output_dimensions + column),
        ),
{
    if 0 <= column < projection.output_dimensions {
        let outputs = projection.output_dimensions as int;
        assert(0 <= row * outputs + column < projection.input_dimensions * outputs)
            by (nonlinear_arith)
            requires
                0 <= column < outputs,
                0 <= row < projection.input_dimensions,
        ;
        lemma_number(bytes@, 16 + 4 * (row * projection.output_dimensions + column));
        crate::bytes::lemma_le_value_bound(
            bytes@.subrange(
                16 + 4 * (row * outputs + column),
                16 + 4 * (row * outputs + column) + 4,
            ),
        );
        crate::bytes::lemma_le_limits();
    }
}

/// An embedding is projected if and only if it has as many values as the projection has rows.
pub proof fn law_projected_embeddings(
    projection: &TextProjection,
    length: usize,
    result: Result<(), Failure>,
)
    requires
        call_ensures(TextProjection::check_input, (projection, length), result),
    ensures
        result is Ok <==> length == projection.input_dimensions,
{
}

/// Fitted tokens fill the context exactly. The tokens stay where they are, but that the last place of a
/// context that is too short for them has the end-of-text token; where tokens are lacking stands padding.
/// The mask goes with the tokens: padding is masked out, and the end of the text never is.
pub proof fn law_fitted_tokens_stay_in_place(
    tokens: Vec<i64>,
    mask: Vec<i64>,
    context: usize,
    eos_token: u32,
    pad_token: u32,
    fitted: (Vec<i64>, Vec<i64>),
    i: int,
)
    requires
        call_ensures(fit_tokens, (tokens, mask, context, eos_token, pad_token), fitted),
        context > 0,
        tokens@.len() == mask@.len(),
        0 <= i < context,
    ensures
        fitted.0@.len() == context,
        fitted.1@.len() == context,
        i < tokens@.len() && (i + 1 < context || tokens@.len() <= context) ==> fitted.0@[i]
            == tokens@[i] && fitted.1@[i] == mask@[i],
        i >= tokens@.len() ==> fitted.0@[i] == pad_token && fitted.1@[i] == 0,
        i + 1 == context && tokens@.len() > context ==> fitted.0@[i] == eos_token && fitted.1@[i]
            == 1,
{
}

/// The mask is handed on as it is where padding is masked; else nothing is masked out.
pub proof fn law_given_masks(mask: Vec<i64>, mask_padding: bool, result: Vec<i64>, i: int)
    requires
        call_ensures(query_mask, (mask, mask_padding), result),
        0 <= i < mask@.len(),
    ensures
        result@.len() == mask@.len(),
        result@[i] == if mask_padding {
            mask@[i]
        } else {
            1
        },
{
}

/// Encoded ids keep their order and none is lost; the end-of-text id comes behind them, where there is
/// one; nothing is masked out.
pub proof fn law_ended_tokens_keep_their_order(
    ids: &Vec<usize>,
    end: Option<usize>,
    tokens: (Vec<i64>, Vec<i64>),
    i: int,
)
    requires
        call_ensures(end_tokens, (ids, end), tokens),
        forall|i: int| 0 <= i < ids@.len() ==> #[trigger] ids@[i] <= i64::MAX,
        end matches Some(id) ==> id <= i64::MAX,
        0 <= i < tokens.0@.len(),
    ensures
        tokens.0@.len() == ids@.len() + if end is Some {
            1int
        } else {
            0
        },
        tokens.1@.len() == tokens.0@.len(),
        i < ids@.len() ==> tokens.0@[i] == ids@[i],
        i == ids@.len() ==> end == Some(tokens.0@[i] as usize),
        tokens.1@[i] == 1,
{
}

/// The inputs of the text model hold the fitted tokens; a mask, if and only if the model takes one,
/// which masks out padding if and only if the model was trained so; and the rows of these very tokens,
/// if and only if the model has a token table.
pub proof fn law_inputs_agree(
    model: &TextModel,
    context: usize,
    tokens: Vec<i64>,
    mask: Vec<i64>,
    table: Option<(&TokenEmbeddingTable, &[u8])>,
    inputs: Result<QueryInputs, Failure>,
    i: int,
    column: int,
)
    requires
        call_ensures(make_inputs, (model, context, tokens, mask, table), inputs),
        context > 0,
        tokens@.len() == mask@.len(),
        table matches Some((table, bytes)) ==> bytes@.len() == 24 + table.rows * table.dimensions,
        0 <= i < context,
        table matches Some((table, _)) ==> 0 <= column < table.dimensions,
    ensures
        table is None ==> inputs is Ok,
        inputs matches Ok(inputs) ==> {
            &&& inputs.tokens@.len() == context
            &&& i < tokens@.len() && (i + 1 < context || tokens@.len() <= context)
                ==> inputs.tokens@[i] == tokens@[i]
            &&& i >= tokens@.len() ==> inputs.tokens@[i] == model.pad_token
            &&& i + 1 == context && tokens@.len() > context ==> inputs.tokens@[i] == model.eos_token
            &&& inputs.mask is Some <==> model.attention_mask is Some
            &&& inputs.mask matches Some(given) ==> {
                &&& given@.len() == context
                &&& !model.mask_padding ==> given@[i] == 1
                &&& model.mask_padding && i >= tokens@.len() ==> given@[i] == 0
                &&& model.mask_padding && i < tokens@.len() && (i + 1 < context || tokens@.len()
                    <= context) ==> given@[i] == mask@[i]
                &&& i + 1 == context && tokens@.len() > context ==> given@[i] == 1
            }
            &&& inputs.embeddings is Some <==> table is Some
            &&& table matches Some((table, bytes)) ==> {
                &&& inputs.embeddings->Some_0@.len() == context * table.dimensions
                &&& inputs.embeddings->Some_0@[i * table.dimensions + column] == bytes@[24
                    + inputs.tokens@[i] * table.dimensions + column] - table.zero_point
                &&& 0 <= inputs.tokens@[i] < table.rows
            }
        },
{
    if let Ok(made) = inputs {
        if let Some((table, bytes)) = table {
            lemma_tokens_fault(*table, made.tokens@);
            lemma_rows(bytes@, *table, made.tokens@, i, column);
        }
    }
}

/// A query is tokenized as it is, unless the model was trained in lower case.
pub proof fn law_queries_are_prepared(query: &str, lowered: bool, prepared: String)
    requires
        call_ensures(prepare_query, (query, lowered), prepared),
    ensures
        !lowered ==> prepared@ == query@,
        lowered ==> prepared@ == lowercase_text(query@),
{
}

/// A tokenizer is a SentencePiece model if and only if its file has a name that ends with `.model` and is
/// more than that.
pub proof fn law_sentencepiece_models_are_told_by_names(
    path: &str,
    named: bool,
    name: Option<String>,
)
    requires
        call_ensures(sentencepiece_path, (path,), named),
        call_ensures(file_name, (path,), name),
    ensures
        named <==> (name matches Some(name) && name@.len() > 6 && name@.skip(name@.len() - 6)
            == seq!['.', 'm', 'o', 'd', 'e', 'l']),
{
    reveal_strlit(".model");
    assert(".model"@ =~= seq!['.', 'm', 'o', 'd', 'e', 'l']);
}

/// The tokens of a query fill the context, and so does their mask.
pub proof fn law_tokenized_queries_fill_the_context(
    tokenizer: &TextTokenizer,
    query: &str,
    context: usize,
    eos_token: u32,
    pad_token: u32,
    tokenized: Result<(Vec<i64>, Vec<i64>), Failure>,
    encoded: Result<(Vec<i64>, Vec<i64>), Failure>,
    fitted: (Vec<i64>, Vec<i64>),
)
    requires
        context > 0,
        tokenizer.is_sound(query@),
        tokenizer.is_fixed(),
        call_ensures(tokenize, (tokenizer, query, context, eos_token, pad_token), tokenized),
        call_ensures(TextTokenizer::encode, (tokenizer, query), encoded),
        encoded matches Ok((tokens, mask)) ==> call_ensures(
            fit_tokens,
            (tokens, mask, context, eos_token, pad_token),
            fitted,
        ),
    ensures
        tokenized is Ok <==> encoded is Ok,
        tokenized matches Ok((tokens, mask)) ==> tokens@ == fitted.0@ && mask@ == fitted.1@
            && tokens@.len() == context && mask@.len() == context,
{
}

/// What a manifest leaves out: images go into `images` and come out as `image_embedding`, tokens go into
/// `tokens` and come out as `text_embedding`, padding is masked, and the text ends with a token of its own.
pub proof fn law_manifests_have_defaults(
    image_input: String,
    image_output: String,
    text_input: String,
    text_output: String,
    masked: bool,
    end: u32,
)
    requires
        call_ensures(default_image_input, (), image_input),
        call_ensures(default_image_output, (), image_output),
        call_ensures(default_text_input, (), text_input),
        call_ensures(default_text_output, (), text_output),
        call_ensures(default_mask_padding, (), masked),
        call_ensures(default_eos_token, (), end),
    ensures
        image_input@ == "images"@ && image_output@ == "image_embedding"@,
        text_input@ == "tokens"@ && text_output@ == "text_embedding"@,
        masked && end == 49_407,
{
}

} // verus!
