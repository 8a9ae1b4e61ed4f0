//! What the text model is given for a query.

use vstd::prelude::*;
use vstd::string::*;

use crate::failure::{plain_failure, Failure, FailureView};
use crate::manifest::TextModel;
use crate::tables::{table_rows, tokens_fault, TokenEmbeddingTable};

use crate::tokens::{
    fit_tokens, fitted_mask, fitted_tokens, prepare_query, prepared_text, query_mask, TextTokenizer,
};

verus! {

/// The inputs of the text model: the tokens, and beside them, where the model takes them, the
/// attention mask and the rows of the token table.
#[derive(Debug, Clone)]
pub struct QueryInputs {
    pub tokens: Vec<i64>,
    pub mask: Option<Vec<i64>>,
    pub embeddings: Option<Vec<i32>>,
}

/// The value of [`QueryInputs`].
pub struct InputsView {
    pub tokens: Seq<i64>,
    pub mask: Option<Seq<i64>>,
    pub embeddings: Option<Seq<i32>>,
}

impl View for QueryInputs {
    type V = InputsView;

    open spec fn view(&self) -> InputsView {
        InputsView {
            tokens: self.tokens@,
            mask: match self.mask {
                Some(mask) => Some(mask@),
                None => None,
            },
            embeddings: match self.embeddings {
                Some(embeddings) => Some(embeddings@),
                None => None,
            },
        }
    }
}

/// The value of a token table and its bytes, where the model has one.
pub open spec fn table_view(table: Option<(&TokenEmbeddingTable, &[u8])>) -> Option<
    (TokenEmbeddingTable, Seq<u8>),
> {
    match table {
        Some((table, bytes)) => Some((*table, bytes@)),
        None => None,
    }
}

/// The mask that the model is given: padding takes part where the model was trained so.
pub open spec fn given_mask(tokens: nat, mask: Seq<i64>, context: nat, mask_padding: bool) -> Seq<i64> {
    if mask_padding {
        fitted_mask(tokens, mask, context)
    } else {
        Seq::new(context, |i: int| 1i64)
    }
}

/// The inputs that encoded tokens make, or why they make none.
pub open spec fn made_inputs(
    model: TextModel,
    context: nat,
    tokens: Seq<i64>,
    mask: Seq<i64>,
    table: Option<(TokenEmbeddingTable, Seq<u8>)>,
) -> Result<InputsView, FailureView> {
    let fitted = fitted_tokens(tokens, context, model.eos_token, model.pad_token);
    let given = if model.attention_mask is Some {
        Some(given_mask(tokens.len(), mask, context, model.mask_padding))
    } else {
        None
    };
    match table {
        None => Ok(InputsView { tokens: fitted, mask: given, embeddings: None }),
        Some((table, bytes)) => match tokens_fault(table, fitted) {
            Some(fault) => Err(fault),
            None => Ok(
                InputsView {
                    tokens: fitted,
                    mask: given,
                    embeddings: Some(table_rows(bytes, table, fitted)),
                },
            ),
        },
    }
}

/// Makes the inputs of the text model from encoded tokens.
pub fn make_inputs(
    model: &TextModel,
    context: usize,
    tokens: Vec<i64>,
    mask: Vec<i64>,
    table: Option<(&TokenEmbeddingTable, &[u8])>,
) -> (inputs: Result<QueryInputs, Failure>)
    requires
        context > 0,
        tokens@.len() > context ==> mask@.len() >= context,
        table matches Some((table, bytes)) ==> table.describes(bytes@),
    ensures
        match (
            inputs,
            made_inputs(*model, context as nat, tokens@, mask@, table_view(table)),
        ) {
            (Ok(inputs), Ok(expected)) => inputs@ == expected,
            (Err(failure), Err(expected)) => failure@ == expected,
            _ => false,
        },
{
    let ghost length = tokens@.len();
    let ghost encoded_mask = mask@;
    let (fitted, fitted_mask) = fit_tokens(
        tokens,
        mask,
        context,
        model.eos_token,
        model.pad_token,
    );
    let mask = if model.attention_mask.is_some() {
        let given = query_mask(fitted_mask, model.mask_padding);
        assert(given@ =~= given_mask(length, encoded_mask, context as nat, model.mask_padding));
        Some(given)
    } else {
        None
    };
    let embeddings = match table {
        None => None,
        Some((table, bytes)) => match table.lookup(bytes, fitted.as_slice()) {
            Ok(values) => Some(values),
            Err(failure) => return Err(failure),
        },
    };
    Ok(QueryInputs { tokens: fitted, mask, embeddings })
}

/// The inputs that a query makes, or why it makes none, from what the tokenizer makes of it.
pub open spec fn encoded_inputs(
    model: TextModel,
    context: nat,
    encoding: Result<(Seq<i64>, Seq<i64>), Seq<char>>,
    table: Option<(TokenEmbeddingTable, Seq<u8>)>,
) -> Result<InputsView, FailureView> {
    match encoding {
        Ok((tokens, mask)) => made_inputs(model, context, tokens, mask, table),
        Err(error) => Err(plain_failure(error)),
    }
}

/// Makes the inputs of the text model for a query, unless the tokenizer cannot encode it. Where the
/// tokenizer leaves something to chance, they are those of some tokens.
pub fn query_inputs(
    tokenizer: &TextTokenizer,
    model: &TextModel,
    context: usize,
    query: &str,
    table: Option<(&TokenEmbeddingTable, &[u8])>,
) -> (inputs: Option<Result<QueryInputs, Failure>>)
    requires
        context > 0,
        table matches Some((table, bytes)) ==> table.describes(bytes@),
    ensures
        inputs is Some == tokenizer.is_sound(prepared_text(query@, model.lowercase)),
        inputs matches Some(Ok(inputs)) ==> exists|tokens: Seq<i64>, mask: Seq<i64>|
            tokens.len() == mask.len() && #[trigger] made_inputs(
                *model,
                context as nat,
                tokens,
                mask,
                table_view(table),
            ) == Ok::<InputsView, FailureView>(inputs@),
        inputs is Some && tokenizer.is_fixed() ==> match (
            inputs,
            encoded_inputs(
                *model,
                context as nat,
                tokenizer.encoding(prepared_text(query@, model.lowercase)),
                table_view(table),
            ),
        ) {
            (Some(Ok(inputs)), Ok(expected)) => inputs@ == expected,
            (Some(Err(failure)), Err(expected)) => failure@ == expected,
            _ => false,
        },
{
    let prepared = prepare_query(query, model.lowercase);
    if !tokenizer.sound(prepared.as_str()) {
        return None;
    }
    let (tokens, mask) = match tokenizer.encode(prepared.as_str()) {
        Ok(encoded) => encoded,
        Err(failure) => return Some(Err(failure)),
    };
    let ghost encoded = tokens@;
    let ghost encoded_mask = mask@;
    let inputs = make_inputs(model, context, tokens, mask, table);
    proof {
        let made = made_inputs(*model, context as nat, encoded, encoded_mask, table_view(table));
        if inputs is Ok {
            assert(made == Ok::<InputsView, FailureView>(inputs->Ok_0@));
        }
    }
    Some(inputs)
}

} // verus!
