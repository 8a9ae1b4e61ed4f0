//! What an index build comes to: what it reuses, and what it writes.

use vstd::prelude::*;
use vstd::string::*;

use crate::failure::Failure;
use crate::index_writer::encoded_records;
use crate::jsonl::write_json_line;
use crate::planning::{
    assemble, catalog_items, check_catalog, index_items, last_position, law_reuse_is_exact,
    missing_before, no_index, plan_reuse, position_view, reusable_items, reused_embedding,
    reused_position, written_records, BuildPlan, BuildRun, ItemView,
};
use crate::search::{BuildEntry, BuildProgress};
use crate::semantic_index::SemanticIndex;
use crate::text::decimal;

verus! {

/// How many of the entries before a position reuse nothing.
pub open spec fn encoded_before(reuse: Seq<Option<usize>>, at: int) -> int {
    reuse.take(at).filter(|position: Option<usize>| position is None).len() as int
}

proof fn lemma_missing(reuse: Seq<Option<usize>>, end: nat)
    requires
        end <= reuse.len(),
    ensures
        missing_before(reuse, end) == encoded_before(reuse, end as int),
    decreases end,
{
    reveal(Seq::filter);
    let none = |position: Option<usize>| position is None;
    let head = reuse.take(end as int);
    if end > 0 {
        lemma_missing(reuse, (end - 1) as nat);
        assert(head.drop_last() =~= reuse.take(end - 1));
        assert(head.last() == reuse[end - 1]);
    } else {
        assert(head.filter(none).len() == 0);
    }
}

/// Whether an entry is written: it reuses an embedding, or one was made for it.
pub open spec fn has_embedding(
    plan: BuildPlan,
    made: Seq<Option<Vec<u32>>>,
    entry: int,
) -> bool {
    plan.reuse@[entry] is Some || made[encoded_before(plan.reuse@, entry)] is Some
}

/// Whether a record is that of an entry: it has its key, its fingerprint, and the embedding that it
/// reuses, or else the one that was made for it.
pub open spec fn is_written_as(
    entries: Seq<BuildEntry>,
    plan: BuildPlan,
    index: Option<SemanticIndex>,
    made: Seq<Option<Vec<u32>>>,
    entry: int,
    written: (BuildEntry, Vec<u32>),
) -> bool {
    &&& written.0.key@ == entries[entry].key@
    &&& written.0.fingerprint == entries[entry].fingerprint
    &&& match (plan.reuse@[entry], index) {
        (Some(position), Some(found)) => written.1@ == found.embeddings@.subrange(
            position * found.dimensions,
            (position + 1) * found.dimensions,
        ),
        _ => made[encoded_before(plan.reuse@, entry)] matches Some(embedding) && written.1@
            == embedding@,
    }
}

proof fn lemma_written(
    entries: Seq<BuildEntry>,
    plan: BuildPlan,
    index: SemanticIndex,
    made: Seq<Option<Vec<u32>>>,
    end: nat,
) -> (positions: Seq<int>)
    requires
        plan.reuse@.len() == entries.len(),
        end <= entries.len(),
    ensures
        ({
            let records = written_records(entries, plan.reuse@, index, made, end);
            &&& positions.len() == records.len()
            &&& forall|k: int|
                0 <= k < positions.len() ==> 0 <= #[trigger] positions[k] < end && has_embedding(
                    plan,
                    made,
                    positions[k],
                )
            &&& forall|k: int, l: int|
                0 <= k < l < positions.len() ==> #[trigger] positions[k] < #[trigger] positions[l]
            &&& forall|entry: int|
                0 <= entry < end && #[trigger] has_embedding(plan, made, entry)
                    ==> positions.contains(entry)
            &&& forall|k: int|
                0 <= k < positions.len() ==> {
                    let entry = #[trigger] positions[k];
                    &&& records[k].key == entries[entry].key@
                    &&& records[k].fingerprint == entries[entry].fingerprint
                    &&& match plan.reuse@[entry] {
                        Some(position) => records[k].embedding == index.embeddings@.subrange(
                            position * index.dimensions,
                            (position + 1) * index.dimensions,
                        ),
                        None => made[encoded_before(plan.reuse@, entry)] matches Some(embedding)
                            && records[k].embedding == embedding@,
                    }
                }
        }),
    decreases end,
{
    if end == 0 {
        Seq::empty()
    } else {
        let earlier = lemma_written(entries, plan, index, made, (end - 1) as nat);
        let last = end - 1;
        lemma_missing(plan.reuse@, last as nat);
        let before = written_records(entries, plan.reuse@, index, made, last as nat);
        let records = written_records(entries, plan.reuse@, index, made, end);
        if let Some(position) = plan.reuse@[last] {
            assert((position + 1) * index.dimensions == position * index.dimensions
                + index.dimensions) by (nonlinear_arith);
        }
        if has_embedding(plan, made, last) {
            let positions = earlier.push(last);
            assert forall|entry: int|
                0 <= entry < end && #[trigger] has_embedding(
                    plan,
                    made,
                    entry,
                ) implies positions.contains(entry) by {
                if entry < last {
                    let k = choose|k: int| 0 <= k < earlier.len() && earlier[k] == entry;
                    assert(positions[k] == entry);
                } else {
                    assert(positions[positions.len() - 1] == entry);
                }
            }
            assert forall|k: int| 0 <= k < positions.len() implies {
                let entry = #[trigger] positions[k];
                &&& records[k].key == entries[entry].key@
                &&& records[k].fingerprint == entries[entry].fingerprint
                &&& match plan.reuse@[entry] {
                    Some(position) => records[k].embedding == index.embeddings@.subrange(
                        position * index.dimensions,
                        (position + 1) * index.dimensions,
                    ),
                    None => made[encoded_before(plan.reuse@, entry)] matches Some(embedding)
                        && records[k].embedding == embedding@,
                }
            } by {
                if k < earlier.len() {
                    assert(positions[k] == earlier[k]);
                    assert(records[k] == before[k]);
                }
            }
            positions
        } else {
            earlier
        }
    }
}

/// A build writes one record for each entry that reuses an embedding or for which one was made, and
/// for no other, whatever the view of the entry: in the order of the catalog, each with the entry's
/// key and fingerprint and its own embedding. `positions` are the entries of the records.
pub proof fn law_every_embedding_is_written(
    entries: &Vec<BuildEntry>,
    plan: &BuildPlan,
    index: &Option<SemanticIndex>,
    made: &Vec<Option<Vec<u32>>>,
    written: Vec<(BuildEntry, Vec<u32>)>,
) -> (positions: Seq<int>)
    requires
        call_ensures(assemble, (entries, plan, index, made), written),
        plan.reuse@.len() == entries@.len(),
        made@.len() == encoded_before(plan.reuse@, plan.reuse@.len() as int),
        index is None ==> forall|i: int|
            0 <= i < plan.reuse@.len() ==> (#[trigger] plan.reuse@[i]) is None,
        index matches Some(found) ==> found.is_complete() && forall|i: int|
            0 <= i < plan.reuse@.len() ==> ((#[trigger] plan.reuse@[i]) matches Some(position)
                ==> position < found.keys@.len()),
    ensures
        positions.len() == written@.len(),
        forall|k: int|
            0 <= k < positions.len() ==> 0 <= #[trigger] positions[k] < entries@.len()
                && has_embedding(*plan, made@, positions[k]) && is_written_as(
                entries@,
                *plan,
                *index,
                made@,
                positions[k],
                written@[k],
            ),
        forall|k: int, l: int|
            0 <= k < l < positions.len() ==> #[trigger] positions[k] < #[trigger] positions[l],
        forall|entry: int|
            0 <= entry < entries@.len() && #[trigger] has_embedding(*plan, made@, entry)
                ==> positions.contains(entry),
{
    lemma_missing(plan.reuse@, plan.reuse@.len());
    let found = match *index {
        Some(found) => found,
        None => no_index(),
    };
    let positions = lemma_written(entries@, *plan, found, made@, entries@.len());
    let records = written_records(entries@, plan.reuse@, found, made@, entries@.len());
    assert(encoded_records(written@) == records);
    assert forall|k: int| 0 <= k < positions.len() implies is_written_as(
        entries@,
        *plan,
        *index,
        made@,
        #[trigger] positions[k],
        written@[k],
    ) by {
        assert(encoded_records(written@)[k] == records[k]);
    }
    positions
}

proof fn lemma_last_position(items: Seq<ItemView>, item: ItemView)
    ensures
        last_position(items, item) matches Some(position) ==> position < items.len() && forall|
            later: int,
        | position < later < items.len() ==> #[trigger] items[later] != item,
    decreases items.len(),
{
    if items.len() > 0 && items.last() != item {
        let rest = items.drop_last();
        lemma_last_position(rest, item);
        if let Some(position) = last_position(rest, item) {
            assert forall|later: int| position < later < items.len() implies #[trigger] items[later]
                != item by {
                if later < rest.len() {
                    assert(rest[later] == items[later]);
                }
            }
        }
    }
}

/// A build reuses an embedding only of an index that was made with the same model and size, for the
/// key and the fingerprint that it was made for, and none twice; of several such embeddings it reuses the
/// last. Every entry that has such an embedding reuses it, unless an entry before it has the same key and
/// fingerprint.
pub proof fn law_reuse_needs_the_same_model(
    entries: &Vec<BuildEntry>,
    index: &Option<SemanticIndex>,
    model: &str,
    dimensions: usize,
    plan: BuildPlan,
    entry: int,
)
    requires
        call_ensures(plan_reuse, (entries, index, model, dimensions), plan),
        0 <= entry < entries@.len(),
        index matches Some(found) ==> found.is_complete(),
    ensures
        plan.reuse@.len() == entries@.len(),
        plan.reuse@[entry] matches Some(position) ==> (*index matches Some(found) && {
            &&& found.model@ == model@
            &&& found.dimensions == dimensions
            &&& position < found.keys@.len()
            &&& found.keys@[position as int]@ == entries@[entry].key@
            &&& found.fingerprints@[position as int] == entries@[entry].fingerprint
            &&& forall|later: int|
                position < later < found.keys@.len() ==> !((#[trigger] found.keys@[later])@
                    == entries@[entry].key@ && found.fingerprints@[later]
                    == entries@[entry].fingerprint)
        }),
        forall|other: int|
            0 <= other < entries@.len() && other != entry && plan.reuse@[entry] is Some
                ==> #[trigger] plan.reuse@[other] != plan.reuse@[entry],
        plan.reuse@[entry] is None ==> {
            ||| exists|earlier: int|
                0 <= earlier < entry && (#[trigger] entries@[earlier]).key@ == entries@[entry].key@
                    && entries@[earlier].fingerprint == entries@[entry].fingerprint
            ||| *index is None
            ||| *index matches Some(found) && (found.model@ != model@ || found.dimensions
                != dimensions || forall|position: int|
                0 <= position < found.keys@.len() ==> !((#[trigger] found.keys@[position])@
                    == entries@[entry].key@ && found.fingerprints@[position]
                    == entries@[entry].fingerprint))
        },
        plan.missing == encoded_before(plan.reuse@, entries@.len() as int),
{
    let items = catalog_items(entries@);
    let known = reusable_items(*index, model@, dimensions);
    law_reuse_is_exact(plan, items, known, entry);
    lemma_missing(plan.reuse@, plan.reuse@.len());
    if let Some(position) = plan.reuse@[entry] {
        assert(position_view(plan.reuse@[entry]) == reused_position(items, known, entry));
        lemma_last_position(known, items[entry]);
        let found = index->Some_0;
        assert forall|later: int| position < later < found.keys@.len() implies !((
        #[trigger] found.keys@[later])@ == entries@[entry].key@ && found.fingerprints@[later]
            == entries@[entry].fingerprint) by {
            assert(known[later] != items[entry]);
        }
    }
    if plan.reuse@[entry] is None {
        if items.take(entry).contains(items[entry]) {
            let earlier = choose|earlier: int|
                0 <= earlier < items.take(entry).len() && items.take(entry)[earlier]
                    == items[entry];
            assert(items[earlier] == items[entry]);
            assert(entries@[earlier].key@ == entries@[entry].key@);
        } else if let Some(found) = *index {
            if found.model@ == model@ && found.dimensions == dimensions {
                assert forall|position: int| 0 <= position < found.keys@.len() implies !((
                #[trigger] found.keys@[position])@ == entries@[entry].key@
                    && found.fingerprints@[position] == entries@[entry].fingerprint) by {
                    if found.keys@[position]@ == entries@[entry].key@
                        && found.fingerprints@[position] == entries@[entry].fingerprint {
                        assert(index_items(found.keys@, found.fingerprints@)[position]
                            == items[entry]);
                        assert(known.contains(items[entry]));
                    }
                }
            }
        }
    }
}

/// A build starts with nothing tried, and counts what it has to encode and what it can reuse.
pub proof fn law_builds_start_with_nothing_tried(plan: &BuildPlan, run: BuildRun, reused: usize)
    requires
        call_ensures(BuildRun::begin, (plan,), run),
        plan.missing <= plan.reuse@.len() <= usize::MAX,
        call_ensures(BuildRun::reused, (&run,), reused),
    ensures
        run.processed == 0 && run.encoded == 0,
        run.total == plan.reuse@.len() && run.missing == plan.missing,
        reused + plan.missing == plan.reuse@.len(),
{
}

/// Every entry that was tried is counted, and as encoded if and only if that succeeded.
pub proof fn law_tried_entries_are_counted(encoded: bool)
    ensures
        forall|run: &mut BuildRun| #[trigger]
            call_ensures(BuildRun::record, (run, encoded), ()) && (*run).is_consistent()
                && (*run).processed < (*run).missing ==> {
                let after = *final(run);
                &&& after.processed == (*run).processed + 1
                &&& encoded ==> after.encoded == (*run).encoded + 1
                &&& !encoded ==> after.encoded == (*run).encoded
                &&& after.total == (*run).total && after.missing == (*run).missing
            },
{
}

/// Progress is reported at every eighth entry and at the last, with how many were tried of those that had
/// to be.
pub proof fn law_progress_is_reported(
    run: &BuildRun,
    detail: &str,
    progress: Option<BuildProgress>,
)
    requires
        call_ensures(BuildRun::progress, (run, detail), progress),
    ensures
        run.processed == run.missing ==> progress is Some,
        run.processed % 8 == 0 ==> progress is Some,
        run.processed != run.missing && run.processed % 8 != 0 ==> progress is None,
        progress matches Some(update) ==> update.progress == run.processed && update.total
            == run.missing && update.detail@ == detail@,
{
}

/// A build that has nothing to write fails, and any other ends with how many embeddings were reused, how
/// many were encoded and how many were not.
pub proof fn law_builds_end_with_their_counts(
    run: &BuildRun,
    written: usize,
    summary: Result<String, Failure>,
    reused: u64,
    encoded: u64,
    skipped: u64,
    reused_text: String,
    encoded_text: String,
    skipped_text: String,
)
    requires
        call_ensures(BuildRun::summary, (run, written), summary),
        run.encoded <= run.processed <= run.missing <= run.total,
        reused + run.missing == run.total,
        encoded == run.encoded,
        skipped + run.encoded == run.missing,
        call_ensures(decimal, (reused,), reused_text),
        call_ensures(decimal, (encoded,), encoded_text),
        call_ensures(decimal, (skipped,), skipped_text),
    ensures
        summary is Ok <==> written > 0,
        summary matches Ok(text) ==> text@ == "semantic index: reused "@ + reused_text@
            + ", encoded "@ + encoded_text@ + ", skipped "@ + skipped_text@,
{
}

/// An index is built over a catalog if and only if that has an entry.
pub proof fn law_catalogs_have_entries(entries: usize, result: Result<(), Failure>)
    requires
        call_ensures(check_catalog, (entries,), result),
    ensures
        result is Ok <==> entries > 0,
{
}

/// The embedding of an entry stands among those of the index where the entry stands among its entries.
pub proof fn law_reused_embeddings_stand_in_place(
    index: &SemanticIndex,
    position: usize,
    embedding: Vec<u32>,
    i: int,
)
    requires
        call_ensures(reused_embedding, (index, position), embedding),
        index.is_complete(),
        position < index.keys@.len(),
        0 <= i < index.dimensions,
    ensures
        embedding@.len() == index.dimensions,
        embedding@[i] == index.embeddings@[position * index.dimensions + i],
{
    assert(0 <= position * index.dimensions && position * index.dimensions + index.dimensions
        <= index.keys@.len() * index.dimensions) by (nonlinear_arith)
        requires
            position < index.keys@.len(),
            0 <= index.dimensions,
    ;
}

/// A record is written as one line behind what was written before.
pub proof fn law_records_are_lines(record: &[u8])
    ensures
        forall|output: &mut Vec<u8>| #[trigger]
            call_ensures(write_json_line, (output, record), ()) ==> {
                let before = (*output)@;
                let after = (*final(output))@;
                &&& after.len() == before.len() + record@.len() + 1
                &&& after.take(before.len() as int) == before
                &&& after.subrange(before.len() as int, after.len() - 1) == record@
                &&& after.last() == 10
            },
{
    assert forall|output: &mut Vec<u8>| #[trigger]
        call_ensures(write_json_line, (output, record), ()) implies {
        let before = (*output)@;
        let after = (*final(output))@;
        &&& after.len() == before.len() + record@.len() + 1
        &&& after.take(before.len() as int) == before
        &&& after.subrange(before.len() as int, after.len() - 1) == record@
        &&& after.last() == 10
    } by {
        let before = (*output)@;
        let after = (*final(output))@;
        assert(after.take(before.len() as int) =~= before);
        assert(after.subrange(before.len() as int, after.len() - 1) =~= record@);
    }
}

/// A build says at its start how many embeddings it reuses, and how many it has to make, if any.
pub proof fn law_builds_say_what_is_to_do(
    run: &BuildRun,
    detail: String,
    reused: u64,
    missing: u64,
    reused_text: String,
    missing_text: String,
)
    requires
        call_ensures(BuildRun::initial_detail, (run,), detail),
        run.encoded <= run.processed <= run.missing <= run.total,
        reused + run.missing == run.total,
        missing == run.missing,
        call_ensures(decimal, (reused,), reused_text),
        call_ensures(decimal, (missing,), missing_text),
    ensures
        run.missing == 0 ==> detail@ == "Reusing "@ + reused_text@ + " cached embeddings"@,
        run.missing > 0 ==> detail@ == "Encoding "@ + missing_text@
            + " new or changed embeddings; reusing "@ + reused_text@,
{
}

} // verus!
