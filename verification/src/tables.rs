//! The token-embedding table and the text projection that a model pack may bring along.

use vstd::prelude::*;
use vstd::slice::slice_subrange;
use vstd::string::*;

use crate::bytes::{le_value, lemma_le_limits, read_le};
use crate::failure::{caused_failure, plain_failure, Failure, FailureView};
use crate::manifest::{TextProjectionModel, TokenEmbeddingModel};
use crate::text;
use crate::text::decimal_text;

verus! {

/// The bytes `SKWDTOK1`, with which every token table begins.
pub const TOKEN_EMBEDDING_MAGIC: [u8; 8] = [0x53, 0x4b, 0x57, 0x44, 0x54, 0x4f, 0x4b, 0x31];

/// The bytes `SKWDPRJ1`, with which every text projection begins.
pub const TEXT_PROJECTION_MAGIC: [u8; 8] = [0x53, 0x4b, 0x57, 0x44, 0x50, 0x52, 0x4a, 0x31];

/// The size of a token table's header.
pub const TABLE_HEADER_BYTES: usize = 24;

/// The size of a text projection's header.
pub const PROJECTION_HEADER_BYTES: usize = 16;

/// The number that four bytes spell.
pub open spec fn number_at(bytes: Seq<u8>, offset: int) -> nat {
    le_value(bytes.subrange(offset, offset + 4))
}

fn read_number(bytes: &[u8], offset: usize) -> (number: u32)
    requires
        offset + 4 <= bytes@.len(),
    ensures
        number == number_at(bytes@, offset as int),
{
    let total: usize = bytes.len();
    assert(offset + 4 <= total);
    let field = slice_subrange(bytes, offset, offset + 4);
    proof {
        lemma_le_limits();
    }
    read_le(field) as u32
}

fn starts_with_magic(bytes: &[u8], magic: &[u8; 8]) -> (found: bool)
    requires
        bytes@.len() >= 8,
    ensures
        found == (bytes@.take(8) == magic@),
{
    let found = slice_subrange(bytes, 0, 8);
    assert(found@ =~= bytes@.take(8));
    text::same_bytes(found, magic.as_slice())
}

/// A table of quantized token embeddings, one row of bytes for each token after its header.
#[derive(Debug, Clone, Copy, PartialEq, Eq)]
pub struct TokenEmbeddingTable {
    pub rows: usize,
    pub dimensions: usize,
    pub zero_point: u8,
}

/// What is wrong with a token table; `scale_matches` tells whether its scale is that of the model.
pub open spec fn table_fault(
    bytes: Seq<u8>,
    model: TokenEmbeddingModel,
    scale_matches: bool,
) -> Option<FailureView> {
    if bytes.len() < TABLE_HEADER_BYTES {
        Some(plain_failure("token table header is truncated"@))
    } else if bytes.take(8) != TOKEN_EMBEDDING_MAGIC@ {
        Some(plain_failure("unsupported token table"@))
    } else if number_at(bytes, 8) != model.rows {
        Some(plain_failure("token table row count mismatch"@))
    } else if number_at(bytes, 12) != model.dimensions {
        Some(plain_failure("token table dimensions mismatch"@))
    } else if !scale_matches {
        Some(plain_failure("token table scale mismatch"@))
    } else if bytes[20] != model.zero_point {
        Some(plain_failure("token table zero-point mismatch"@))
    } else if model.rows * model.dimensions > usize::MAX {
        Some(plain_failure("token table dimensions overflow"@))
    } else if bytes.len() != TABLE_HEADER_BYTES + model.rows * model.dimensions {
        Some(plain_failure("token table length mismatch"@))
    } else {
        None
    }
}

/// The bit pattern of the scale that a token table was written with, where it has a header.
pub fn table_scale(bytes: &[u8]) -> (scale: Option<u32>)
    ensures
        scale is Some == (bytes@.len() >= TABLE_HEADER_BYTES),
        scale matches Some(bits) ==> bits == number_at(bytes@, 16),
{
    if bytes.len() < TABLE_HEADER_BYTES {
        return None;
    }
    Some(read_number(bytes, 16))
}

/// The row of a token: each quantized value less the zero point.
pub open spec fn table_row(
    bytes: Seq<u8>,
    table: TokenEmbeddingTable,
    row: int,
) -> Seq<i32> {
    Seq::new(
        table.dimensions as nat,
        |column: int|
            (bytes[TABLE_HEADER_BYTES + row * table.dimensions + column] - table.zero_point) as i32,
    )
}

/// The rows of tokens, one after the other.
pub open spec fn table_rows(
    bytes: Seq<u8>,
    table: TokenEmbeddingTable,
    tokens: Seq<i64>,
) -> Seq<i32>
    decreases tokens.len(),
{
    if tokens.len() == 0 {
        Seq::empty()
    } else {
        table_rows(bytes, table, tokens.drop_last()) + table_row(bytes, table, tokens.last() as int)
    }
}

/// Why a token has no row.
pub open spec fn token_fault(table: TokenEmbeddingTable, token: i64) -> Option<FailureView> {
    if token < 0 || token > usize::MAX {
        Some(
            caused_failure(
                "negative token id"@,
                "out of range integral type conversion attempted"@,
            ),
        )
    } else if token >= table.rows {
        Some(plain_failure("token id "@ + decimal_text(token as nat) + " exceeds table size"@))
    } else {
        None
    }
}

/// Why the first token without a row has none.
pub open spec fn tokens_fault(table: TokenEmbeddingTable, tokens: Seq<i64>) -> Option<FailureView>
    decreases tokens.len(),
{
    if tokens.len() == 0 {
        None
    } else {
        match token_fault(table, tokens[0]) {
            Some(fault) => Some(fault),
            None => tokens_fault(table, tokens.drop_first()),
        }
    }
}

impl TokenEmbeddingTable {
    /// Whether the table describes the bytes.
    pub open spec fn describes(self, bytes: Seq<u8>) -> bool {
        bytes.len() == TABLE_HEADER_BYTES + self.rows * self.dimensions
    }

    /// Checks a token table against the manifest.
    pub fn load(bytes: &[u8], model: &TokenEmbeddingModel, scale_matches: bool) -> (table: Result<
        TokenEmbeddingTable,
        Failure,
    >)
        ensures
            match (table, table_fault(bytes@, *model, scale_matches)) {
                (Ok(table), None) => table == (TokenEmbeddingTable {
                    rows: model.rows,
                    dimensions: model.dimensions,
                    zero_point: model.zero_point,
                }) && table.describes(bytes@),
                (Err(failure), Some(fault)) => failure@ == fault,
                _ => false,
            },
    {
        if bytes.len() < TABLE_HEADER_BYTES {
            return Err(Failure::plain("token table header is truncated"));
        }
        if !starts_with_magic(bytes, &TOKEN_EMBEDDING_MAGIC) {
            return Err(Failure::plain("unsupported token table"));
        }
        if read_number(bytes, 8) as usize != model.rows {
            return Err(Failure::plain("token table row count mismatch"));
        }
        if read_number(bytes, 12) as usize != model.dimensions {
            return Err(Failure::plain("token table dimensions mismatch"));
        }
        if !scale_matches {
            return Err(Failure::plain("token table scale mismatch"));
        }
        if bytes[20] != model.zero_point {
            return Err(Failure::plain("token table zero-point mismatch"));
        }
        let values: usize = match model.rows.checked_mul(model.dimensions) {
            Some(values) => values,
            None => return Err(Failure::plain("token table dimensions overflow")),
        };
        if bytes.len() - TABLE_HEADER_BYTES != values {
            return Err(Failure::plain("token table length mismatch"));
        }
        Ok(
            TokenEmbeddingTable {
                rows: model.rows,
                dimensions: model.dimensions,
                zero_point: model.zero_point,
            },
        )
    }

    fn push_row(&self, bytes: &[u8], row: usize, output: &mut Vec<i32>)
        requires
            self.describes(bytes@),
            row < self.rows,
        ensures
            final(output)@ == old(output)@ + table_row(bytes@, *self, row as int),
    {
        let total: usize = bytes.len();
        proof {
            assert((row + 1) * self.dimensions <= self.rows * self.dimensions) by (nonlinear_arith)
                requires
                    row < self.rows,
            ;
            assert((row + 1) * self.dimensions == row * self.dimensions + self.dimensions)
                by (nonlinear_arith);
            assert(0 <= row * self.dimensions) by (nonlinear_arith);
        }
        let start: usize = TABLE_HEADER_BYTES + row * self.dimensions;
        let mut column: usize = 0;
        assert(output@ =~= old(output)@ + table_row(bytes@, *self, row as int).take(0));
        while column < self.dimensions
            invariant
                column <= self.dimensions,
                start == TABLE_HEADER_BYTES + row * self.dimensions,
                start + self.dimensions <= bytes@.len() == total,
                output@ == old(output)@ + table_row(bytes@, *self, row as int).take(column as int),
            decreases self.dimensions - column,
        {
            output.push(bytes[start + column] as i32 - self.zero_point as i32);
            assert(output@ =~= old(output)@ + table_row(bytes@, *self, row as int).take(
                column + 1,
            ));
            column = column + 1;
        }
        assert(table_row(bytes@, *self, row as int).take(column as int) =~= table_row(
            bytes@,
            *self,
            row as int,
        ));
    }

    /// The rows of tokens, each quantized value less the zero point.
    pub fn lookup(&self, bytes: &[u8], tokens: &[i64]) -> (values: Result<Vec<i32>, Failure>)
        requires
            self.describes(bytes@),
        ensures
            match (values, tokens_fault(*self, tokens@)) {
                (Ok(values), None) => values@ == table_rows(bytes@, *self, tokens@),
                (Err(failure), Some(fault)) => failure@ == fault,
                _ => false,
            },
    {
        let mut output: Vec<i32> = Vec::new();
        let mut position: usize = 0;
        assert(tokens@.skip(0) =~= tokens@);
        while position < tokens.len()
            invariant
                self.describes(bytes@),
                position <= tokens@.len(),
                tokens_fault(*self, tokens@) == tokens_fault(*self, tokens@.skip(position as int)),
                output@ == table_rows(bytes@, *self, tokens@.take(position as int)),
            decreases tokens@.len() - position,
        {
            proof {
                assert(tokens@.skip(position as int)[0] == tokens@[position as int]);
                assert(tokens@.skip(position as int).drop_first() =~= tokens@.skip(position + 1));
                assert(tokens@.take(position + 1).drop_last() =~= tokens@.take(position as int));
            }
            let token: i64 = tokens[position];
            if token < 0 || token as u64 > usize::MAX as u64 {
                return Err(
                    Failure::caused(
                        "negative token id",
                        "out of range integral type conversion attempted",
                    ),
                );
            }
            let row: usize = token as usize;
            if row >= self.rows {
                let message = text::join(
                    text::join("token id ", text::decimal(row as u64).as_str()).as_str(),
                    " exceeds table size",
                );
                return Err(Failure::plain(message.as_str()));
            }
            self.push_row(bytes, row, &mut output);
            position = position + 1;
        }
        assert(tokens@.take(position as int) =~= tokens@);
        Ok(output)
    }
}

/// A matrix that is applied to the text model's output, its rows one after the other after the
/// header.
#[derive(Debug, Clone, Copy, PartialEq, Eq)]
pub struct TextProjection {
    pub input_dimensions: usize,
    pub output_dimensions: usize,
}

/// What is wrong with a text projection.
pub open spec fn projection_fault(bytes: Seq<u8>, model: TextProjectionModel) -> Option<
    FailureView,
> {
    if bytes.len() < PROJECTION_HEADER_BYTES {
        Some(plain_failure("projection header is truncated"@))
    } else if bytes.take(8) != TEXT_PROJECTION_MAGIC@ {
        Some(plain_failure("unsupported text projection"@))
    } else if number_at(bytes, 8) != model.input_dimensions {
        Some(plain_failure("projection input mismatch"@))
    } else if number_at(bytes, 12) != model.output_dimensions {
        Some(plain_failure("projection output mismatch"@))
    } else if model.input_dimensions * model.output_dimensions > usize::MAX {
        Some(plain_failure("projection dimensions overflow"@))
    } else if bytes.len() != PROJECTION_HEADER_BYTES + 4 * (model.input_dimensions
        * model.output_dimensions) {
        Some(plain_failure("projection length mismatch"@))
    } else {
        None
    }
}

/// The bit pattern of a weight.
pub open spec fn projection_weight(
    bytes: Seq<u8>,
    projection: TextProjection,
    row: int,
    column: int,
) -> u32 {
    number_at(
        bytes,
        PROJECTION_HEADER_BYTES + 4 * (row * projection.output_dimensions + column),
    ) as u32
}

impl TextProjection {
    /// Whether the projection describes the bytes.
    pub open spec fn describes(self, bytes: Seq<u8>) -> bool {
        bytes.len() == PROJECTION_HEADER_BYTES + 4 * (self.input_dimensions
            * self.output_dimensions)
    }

    /// Checks a text projection against the manifest.
    pub fn load(bytes: &[u8], model: &TextProjectionModel) -> (projection: Result<
        TextProjection,
        Failure,
    >)
        ensures
            match (projection, projection_fault(bytes@, *model)) {
                (Ok(projection), None) => projection == (TextProjection {
                    input_dimensions: model.input_dimensions,
                    output_dimensions: model.output_dimensions,
                }) && projection.describes(bytes@),
                (Err(failure), Some(fault)) => failure@ == fault,
                _ => false,
            },
    {
        if bytes.len() < PROJECTION_HEADER_BYTES {
            return Err(Failure::plain("projection header is truncated"));
        }
        if !starts_with_magic(bytes, &TEXT_PROJECTION_MAGIC) {
            return Err(Failure::plain("unsupported text projection"));
        }
        if read_number(bytes, 8) as usize != model.input_dimensions {
            return Err(Failure::plain("projection input mismatch"));
        }
        if read_number(bytes, 12) as usize != model.output_dimensions {
            return Err(Failure::plain("projection output mismatch"));
        }
        let values: usize = match model.input_dimensions.checked_mul(model.output_dimensions) {
            Some(values) => values,
            None => return Err(Failure::plain("projection dimensions overflow")),
        };
        let body: usize = bytes.len() - PROJECTION_HEADER_BYTES;
        if body % 4 != 0 || body / 4 != values {
            return Err(Failure::plain("projection length mismatch"));
        }
        Ok(
            TextProjection {
                input_dimensions: model.input_dimensions,
                output_dimensions: model.output_dimensions,
            },
        )
    }

    /// Checks that an embedding can be projected.
    pub fn check_input(&self, length: usize) -> (result: Result<(), Failure>)
        ensures
            match result {
                Ok(_) => length == self.input_dimensions,
                Err(failure) => length != self.input_dimensions && failure@ == plain_failure(
                    "projection input shape mismatch"@,
                ),
            },
    {
        if length != self.input_dimensions {
            return Err(Failure::plain("projection input shape mismatch"));
        }
        Ok(())
    }

    /// The bit patterns of the weights with which one input value goes into the outputs.
    pub fn weights(&self, bytes: &[u8], row: usize) -> (weights: Vec<u32>)
        requires
            self.describes(bytes@),
            row < self.input_dimensions,
        ensures
            weights@ == Seq::new(
                self.output_dimensions as nat,
                |column: int| projection_weight(bytes@, *self, row as int, column),
            ),
    {
        let total: usize = bytes.len();
        proof {
            assert((row + 1) * self.output_dimensions <= self.input_dimensions
                * self.output_dimensions) by (nonlinear_arith)
                requires
                    row < self.input_dimensions,
            ;
            assert((row + 1) * self.output_dimensions == row * self.output_dimensions
                + self.output_dimensions) by (nonlinear_arith);
            assert(0 <= row * self.output_dimensions) by (nonlinear_arith);
        }
        let first: usize = row * self.output_dimensions;
        let mut weights: Vec<u32> = Vec::new();
        let mut column: usize = 0;
        while column < self.output_dimensions
            invariant
                column <= self.output_dimensions,
                first == row * self.output_dimensions,
                PROJECTION_HEADER_BYTES + 4 * (first + self.output_dimensions) <= bytes@.len()
                    == total,
                weights@ == Seq::new(
                    column as nat,
                    |column: int| projection_weight(bytes@, *self, row as int, column),
                ),
            decreases self.output_dimensions - column,
        {
            weights.push(read_number(bytes, PROJECTION_HEADER_BYTES + 4 * (first + column)));
            assert(weights@ =~= Seq::new(
                (column + 1) as nat,
                |column: int| projection_weight(bytes@, *self, row as int, column),
            ));
            column = column + 1;
        }
        weights
    }
}

} // verus!
