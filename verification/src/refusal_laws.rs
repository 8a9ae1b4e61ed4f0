//! Why requests, manifests, arguments and files are refused: the first thing that is wrong decides.

use vstd::prelude::*;
use vstd::string::*;

use crate::argument_laws::{
    is_chosen_runtime, is_given, is_given_value, lacks_runtime, lacks_value, lemma_given,
    lemma_given_value,
};
use crate::cli::{Arguments, RuntimeEnvironment};
use crate::failure::Failure;
use crate::index::{read_index_header, IndexError, IndexErrorKind, IndexHeader};
use crate::index_laws::four_bytes;
use crate::manifest::{
    check_index, validate_manifest, Manifest, TextProjectionModel, TokenEmbeddingModel,
};
use crate::model_laws::lemma_number;
use crate::ranking::check_request;
use crate::ranking_laws::{is_amount, says_something};
use crate::search::SearchRequest;
use crate::tables::{TextProjection, TokenEmbeddingTable};

verus! {

/// What is wrong with a request that is refused.
pub proof fn law_refused_requests(request: &SearchRequest, result: Result<(), Failure>)
    requires
        call_ensures(check_request, (request,), result),
    ensures
        result matches Err(failure) ==> failure.cause is None && failure.message@ == (
        if !says_something(request.query@) {
            "query must not be empty"@
        } else if request.top_k == 0 {
            "top-k must be positive"@
        } else if !is_amount(request.negative_weight) {
            "invalid negative weight"@
        } else if request.score_window is Some && !is_amount(request.score_window->Some_0) {
            "invalid score window"@
        } else if request.min_score_prominence is Some && !is_amount(
            request.min_score_prominence->Some_0,
        ) {
            "invalid minimum score prominence"@
        } else {
            "invalid maximum result count"@
        }),
{
}

/// What is wrong with a manifest that is refused, as far as it is not about the image input.
pub proof fn law_refused_manifests(manifest: &Manifest, result: Result<(), Failure>)
    requires
        call_ensures(validate_manifest, (manifest,), result),
    ensures
        manifest.format != 1 ==> (result matches Err(failure) && failure.message@
            == "unsupported semantic model-pack format"@),
        manifest.format == 1 ==> (result matches Err(failure) ==> {
            &&& !says_something(manifest.id@) ==> failure.message@ == "semantic model id is empty"@
            &&& says_something(manifest.id@) && !says_something(manifest.version@)
                ==> failure.message@ == "semantic model version is empty"@
            &&& says_something(manifest.id@) && says_something(manifest.version@)
                && manifest.dimensions == 0 ==> failure.message@
                == "semantic model dimensions must be positive"@
            &&& says_something(manifest.id@) && says_something(manifest.version@)
                && manifest.dimensions > 0 && manifest.context_length <= 1 ==> failure.message@
                == "semantic context length must exceed one"@
        }),
{
}

/// What is wrong with an index that is not searched: it is that of another model, or else its embeddings
/// have another size.
pub proof fn law_refused_indexes(
    index_model: &str,
    index_dimensions: usize,
    manifest: &Manifest,
    result: Result<(), Failure>,
)
    requires
        call_ensures(check_index, (index_model, index_dimensions, manifest), result),
    ensures
        result matches Err(failure) ==> {
            let wanted = manifest.id@ + seq!['@'] + manifest.version@;
            &&& index_model@ != wanted ==> failure.message@ == "index uses "@ + index_model@
                + " but model pack requires "@ + wanted
            &&& index_model@ == wanted ==> failure.message@ == "index has "@
                + crate::text::decimal_text(index_dimensions as nat)
                + " dimensions but model expects "@ + crate::text::decimal_text(
                manifest.dimensions as nat,
            )
        },
{
    reveal_strlit("@");
    assert("@"@ =~= seq!['@']);
}

/// What is wrong with arguments that are refused: no index, no runtime, no mode or more than one, a query
/// that says nothing, or a number that cannot be.
pub proof fn law_refused_modes(
    arguments: &[String],
    environment: &RuntimeEnvironment,
    manifest: String,
    parsed: Result<Arguments, Failure>,
    index: Seq<char>,
    runtime: Seq<char>,
    query: Seq<char>,
)
    requires
        call_ensures(Arguments::parse, (arguments, environment, manifest), parsed),
    ensures
        lacks_value(arguments@, "--index"@) ==> (parsed matches Err(failure) && failure.message@
            == "use "@ + "--index"@ + " <path>"@),
        is_given_value(arguments@, "--index"@, index) && lacks_runtime(arguments@, *environment) ==> (
        parsed matches Err(failure) && failure.message@
            == "use --runtime <libonnxruntime.so> or SKWD_LENS_ORT_DYLIB"@),
        is_given_value(arguments@, "--index"@, index) && is_chosen_runtime(
            arguments@,
            *environment,
            runtime,
        ) ==> {
            let serve = is_given(arguments@, "--serve"@);
            let build = is_given(arguments@, "--build-index"@);
            &&& !serve && !build && lacks_value(arguments@, "--query"@) ==> (parsed matches Err(
                failure,
            ) && failure.message@ == "use --serve, --build-index, or --query <natural language>"@)
            &&& serve && is_given_value(arguments@, "--query"@, query) ==> (parsed matches Err(
                failure,
            ) && failure.message@ == "--serve and --query are mutually exclusive"@)
            &&& build && (serve || is_given_value(arguments@, "--query"@, query)) && !(serve
                && is_given_value(arguments@, "--query"@, query)) && (serve ==> lacks_value(
                arguments@,
                "--query"@,
            )) ==> (parsed matches Err(failure) && failure.message@
                == "--build-index cannot be combined with search modes"@)
            &&& !serve && !build && is_given_value(arguments@, "--query"@, query)
                && !says_something(query) ==> (parsed matches Err(failure) && failure.message@
                == "query must not be empty"@)
        },
{
    lemma_given_value(arguments@, "--index"@);
    lemma_given_value(arguments@, "--runtime"@);
    lemma_given_value(arguments@, "--query"@);
    lemma_given(arguments@, "--serve"@);
    lemma_given(arguments@, "--build-index"@);
}

/// What is wrong with a token table that is refused: its header is cut off, it is no table, or what it says
/// of itself is not what the manifest says.
pub proof fn law_refused_tables(
    bytes: &[u8],
    model: &TokenEmbeddingModel,
    scale_matches: bool,
    table: Result<TokenEmbeddingTable, Failure>,
)
    requires
        call_ensures(TokenEmbeddingTable::load, (bytes, model, scale_matches), table),
    ensures
        table matches Err(failure) ==> failure.message@ == (if bytes@.len() < 24 {
            "token table header is truncated"@
        } else if bytes@.take(8) != seq![0x53u8, 0x4b, 0x57, 0x44, 0x54, 0x4f, 0x4b, 0x31] {
            "unsupported token table"@
        } else if four_bytes(bytes@, 8) != model.rows {
            "token table row count mismatch"@
        } else if four_bytes(bytes@, 12) != model.dimensions {
            "token table dimensions mismatch"@
        } else if !scale_matches {
            "token table scale mismatch"@
        } else if bytes@[20] != model.zero_point {
            "token table zero-point mismatch"@
        } else if model.rows * model.dimensions > usize::MAX {
            "token table dimensions overflow"@
        } else {
            "token table length mismatch"@
        }),
{
    assert(crate::tables::TOKEN_EMBEDDING_MAGIC@ =~= seq![
        0x53u8,
        0x4b,
        0x57,
        0x44,
        0x54,
        0x4f,
        0x4b,
        0x31,
    ]);
    if bytes@.len() >= 24 {
        lemma_number(bytes@, 8);
        lemma_number(bytes@, 12);
    }
}

/// What is wrong with a text projection that is refused.
pub proof fn law_refused_projections(
    bytes: &[u8],
    model: &TextProjectionModel,
    projection: Result<TextProjection, Failure>,
)
    requires
        call_ensures(TextProjection::load, (bytes, model), projection),
    ensures
        projection matches Err(failure) ==> failure.message@ == (if bytes@.len() < 16 {
            "projection header is truncated"@
        } else if bytes@.take(8) != seq![0x53u8, 0x4b, 0x57, 0x44, 0x50, 0x52, 0x4a, 0x31] {
            "unsupported text projection"@
        } else if four_bytes(bytes@, 8) != model.input_dimensions {
            "projection input mismatch"@
        } else if four_bytes(bytes@, 12) != model.output_dimensions {
            "projection output mismatch"@
        } else if model.input_dimensions * model.output_dimensions > usize::MAX {
            "projection dimensions overflow"@
        } else {
            "projection length mismatch"@
        }),
{
    assert(crate::tables::TEXT_PROJECTION_MAGIC@ =~= seq![
        0x53u8,
        0x4b,
        0x57,
        0x44,
        0x50,
        0x52,
        0x4a,
        0x31,
    ]);
    if bytes@.len() >= 16 {
        lemma_number(bytes@, 8);
        lemma_number(bytes@, 12);
    }
}

/// An index whose bytes end within the header is told from one that says something that an index cannot
/// say.
pub proof fn law_cut_off_headers_are_told(bytes: &[u8], header: Result<IndexHeader, IndexError>)
    requires
        call_ensures(read_index_header, (bytes,), header),
    ensures
        bytes@.len() < 8 ==> (header matches Err(error) && error.kind
            == IndexErrorKind::UnexpectedEof),
        bytes@.len() >= 8 && bytes@.take(8) != seq![
            0x53u8,
            0x4b,
            0x57,
            0x44,
            0x53,
            0x45,
            0x4d,
            0x33,
        ] ==> (header matches Err(error) && error.kind == IndexErrorKind::InvalidData),
        (header matches Err(error) && error.kind == IndexErrorKind::UnexpectedEof) ==> bytes@.len()
            < 16 || bytes@.len() < 32 + four_bytes(bytes@, 12),
{
    crate::index_laws::law_headers_are_laid_out(bytes@);
    assert(crate::index::INDEX_MAGIC@ =~= seq![
        0x53u8,
        0x4b,
        0x57,
        0x44,
        0x53,
        0x45,
        0x4d,
        0x33,
    ]);
    if bytes@.len() >= 16 {
        let after = bytes@.skip(8);
        assert(after.take(4) =~= bytes@.subrange(8, 12));
        let later = after.skip(4);
        assert(later.take(4) =~= bytes@.subrange(12, 16));
        crate::index_laws::law_numbers_are_little_endian(bytes@.subrange(12, 16));
        let rest = later.skip(4);
        assert(rest.len() == bytes@.len() - 16);
    }
}

} // verus!
