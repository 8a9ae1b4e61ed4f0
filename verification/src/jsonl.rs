//! One record a line.

use vstd::prelude::*;

verus! {

/// The byte that ends a line.
pub const LINE_END: u8 = 10;

/// Appends a record and the end of its line.
pub fn write_json_line(output: &mut Vec<u8>, record: &[u8])
    ensures
        final(output)@ == old(output)@ + record@ + seq![LINE_END],
{
    let ghost before = output@;
    output.extend_from_slice(record);
    output.push(LINE_END);
    assert(output@ =~= before + record@ + seq![LINE_END]);
}

/// How many lines end within bytes.
pub open spec fn line_count(bytes: Seq<u8>) -> nat
    decreases bytes.len(),
{
    if bytes.len() == 0 {
        0
    } else {
        line_count(bytes.drop_last()) + if bytes.last() == LINE_END {
            1nat
        } else {
            0nat
        }
    }
}

/// A record without a line end of its own adds one line, whatever was written before.
pub proof fn law_record_is_one_line(before: Seq<u8>, record: Seq<u8>)
    requires
        !record.contains(LINE_END),
    ensures
        line_count(before + record + seq![LINE_END]) == line_count(before) + 1,
{
    let written = before + record + seq![LINE_END];
    assert(written.drop_last() =~= before + record);
    lemma_no_line_end(before, record);
}

proof fn lemma_no_line_end(before: Seq<u8>, record: Seq<u8>)
    requires
        !record.contains(LINE_END),
    ensures
        line_count(before + record) == line_count(before),
    decreases record.len(),
{
    if record.len() == 0 {
        assert(before + record =~= before);
    } else {
        assert((before + record).drop_last() =~= before + record.drop_last());
        assert(record.contains(record[record.len() - 1]));
        assert forall|i: int| 0 <= i < record.drop_last().len() implies record.drop_last()[i]
            != LINE_END by {
            assert(record.contains(record[i]));
        }
        lemma_no_line_end(before, record.drop_last());
    }
}

} // verus!
