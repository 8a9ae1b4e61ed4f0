//! Planning an index build: which embeddings are reused, and what is reported on the way.

use vstd::hash_map::StringHashMap;
use vstd::prelude::*;
use vstd::string::*;

use crate::failure::{plain_failure, Failure};
use crate::index::RecordView;
use crate::index_writer::encoded_records;
use crate::search::{BuildEntry, BuildProgress};
use crate::semantic_index::SemanticIndex;
use crate::text;
use crate::text::{decimal_text, hex_char, hex_text};

verus! {

/// What an embedding is kept under: the key of an entry and the fingerprint of its image.
pub struct ItemView {
    pub key: Seq<char>,
    pub fingerprint: u64,
}

/// What the entries of a catalog are kept under.
pub open spec fn catalog_items(entries: Seq<BuildEntry>) -> Seq<ItemView> {
    entries.map_values(
        |entry: BuildEntry| ItemView { key: entry.key@, fingerprint: entry.fingerprint },
    )
}

/// What the entries of an index are kept under.
pub open spec fn index_items(keys: Seq<String>, fingerprints: Seq<u64>) -> Seq<ItemView> {
    Seq::new(keys.len(), |i: int| ItemView { key: keys[i]@, fingerprint: fingerprints[i] })
}

/// Where an item last stands.
pub open spec fn last_position(items: Seq<ItemView>, item: ItemView) -> Option<nat>
    decreases items.len(),
{
    if items.len() == 0 {
        None
    } else if items.last() == item {
        Some((items.len() - 1) as nat)
    } else {
        last_position(items.drop_last(), item)
    }
}

/// Which embedding of the index an entry reuses: the last one that is kept under the same key and
/// fingerprint, unless an entry before it has taken it.
pub open spec fn reused_position(entries: Seq<ItemView>, index: Seq<ItemView>, entry: int) -> Option<
    nat,
> {
    if entries.take(entry).contains(entries[entry]) {
        None
    } else {
        last_position(index, entries[entry])
    }
}

/// The value of a position that may be missing.
pub open spec fn position_view(position: Option<usize>) -> Option<nat> {
    match position {
        Some(position) => Some(position as nat),
        None => None,
    }
}

/// How many entries before `end` reuse nothing.
pub open spec fn missing_before(reuse: Seq<Option<usize>>, end: nat) -> nat
    decreases end,
{
    if end == 0 {
        0
    } else {
        missing_before(reuse, (end - 1) as nat) + if reuse[end - 1] is None {
            1nat
        } else {
            0nat
        }
    }
}

/// Which embeddings a build reuses, and how many it has to encode.
#[derive(Debug, Clone)]
pub struct BuildPlan {
    pub reuse: Vec<Option<usize>>,
    pub missing: usize,
}

impl BuildPlan {
    /// Whether the plan is that of a catalog and an index.
    pub open spec fn plans(&self, entries: Seq<ItemView>, index: Seq<ItemView>) -> bool {
        &&& self.reuse@.len() == entries.len()
        &&& forall|i: int|
            0 <= i < entries.len() ==> position_view(#[trigger] self.reuse@[i]) == reused_position(
                entries,
                index,
                i,
            )
        &&& self.missing == missing_before(self.reuse@, self.reuse@.len())
        &&& self.missing <= self.reuse@.len()
    }
}

/// The text under which an item is looked up.
spec fn item_text(item: ItemView) -> Seq<char> {
    hex_text(item.fingerprint as nat, 16) + item.key
}

fn lookup_text(key: &str, fingerprint: u64) -> (result: String)
    ensures
        result@ == item_text(ItemView { key: key@, fingerprint }),
{
    text::join(text::hex(fingerprint, 16).as_str(), key)
}

spec fn hex_limit(width: nat) -> nat
    decreases width,
{
    if width == 0 {
        1
    } else {
        16 * hex_limit((width - 1) as nat)
    }
}

proof fn lemma_hex_len(number: nat, width: nat)
    ensures
        hex_text(number, width).len() == width,
    decreases width,
{
    if width > 0 {
        lemma_hex_len(number / 16, (width - 1) as nat);
    }
}

proof fn lemma_hex_injective(left: nat, right: nat, width: nat)
    requires
        left < hex_limit(width),
        right < hex_limit(width),
        hex_text(left, width) == hex_text(right, width),
    ensures
        left == right,
    decreases width,
{
    if width > 0 {
        let a = hex_text(left, width);
        let b = hex_text(right, width);
        assert(a.last() == hex_char(left % 16));
        assert(b.last() == hex_char(right % 16));
        assert(left % 16 == right % 16);
        assert(a.drop_last() =~= hex_text(left / 16, (width - 1) as nat));
        assert(b.drop_last() =~= hex_text(right / 16, (width - 1) as nat));
        lemma_hex_injective(left / 16, right / 16, (width - 1) as nat);
    }
}

proof fn lemma_item_text_injective(left: ItemView, right: ItemView)
    requires
        item_text(left) == item_text(right),
    ensures
        left == right,
{
    let a = hex_text(left.fingerprint as nat, 16);
    let b = hex_text(right.fingerprint as nat, 16);
    lemma_hex_len(left.fingerprint as nat, 16);
    lemma_hex_len(right.fingerprint as nat, 16);
    assert(item_text(left).take(16) =~= a);
    assert(item_text(right).take(16) =~= b);
    assert(item_text(left).skip(16) =~= left.key);
    assert(item_text(right).skip(16) =~= right.key);
    reveal_with_fuel(hex_limit, 17);
    lemma_hex_injective(left.fingerprint as nat, right.fingerprint as nat, 16);
}

/// Whether positions tell where each item that is not taken last stands.
spec fn tells_positions(
    positions: Map<Seq<char>, usize>,
    index: Seq<ItemView>,
    taken: Seq<ItemView>,
) -> bool {
    forall|item: ItemView|
        {
            &&& positions.contains_key(#[trigger] item_text(item)) <==> last_position(
                index,
                item,
            ) is Some && !taken.contains(item)
            &&& positions.contains_key(item_text(item)) ==> last_position(index, item) == Some(
                positions[item_text(item)] as nat,
            )
        }
}

fn index_positions(index: &SemanticIndex) -> (positions: StringHashMap<usize>)
    requires
        index.fingerprints@.len() == index.keys@.len(),
    ensures
        tells_positions(
            positions@,
            index_items(index.keys@, index.fingerprints@),
            Seq::empty(),
        ),
{
    let mut positions: StringHashMap<usize> = StringHashMap::new();
    let ghost items = index_items(index.keys@, index.fingerprints@);
    let mut position: usize = 0;
    while position < index.keys.len()
        invariant
            position <= index.keys@.len(),
            index.fingerprints@.len() == index.keys@.len(),
            items == index_items(index.keys@, index.fingerprints@),
            tells_positions(positions@, items.take(position as int), Seq::empty()),
        decreases index.keys@.len() - position,
    {
        let ghost before = positions@;
        let ghost added = items[position as int];
        positions.insert(
            lookup_text(index.keys[position].as_str(), index.fingerprints[position]),
            position,
        );
        proof {
            let next = items.take(position + 1);
            assert(next.drop_last() =~= items.take(position as int));
            assert(next.last() == added);
            assert forall|item: ItemView|
                {
                    &&& positions@.contains_key(#[trigger] item_text(item)) <==> last_position(
                        next,
                        item,
                    ) is Some && !Seq::<ItemView>::empty().contains(item)
                    &&& positions@.contains_key(item_text(item)) ==> last_position(next, item)
                        == Some(positions@[item_text(item)] as nat)
                } by {
                if item_text(item) == item_text(added) {
                    lemma_item_text_injective(item, added);
                }
                assert(before.contains_key(item_text(item)) <==> last_position(
                    items.take(position as int),
                    item,
                ) is Some && !Seq::<ItemView>::empty().contains(item));
            }
        }
        position = position + 1;
    }
    assert(items.take(position as int) =~= items);
    positions
}

/// Plans which embeddings of an index the entries of a catalog reuse.
pub fn plan_build(entries: &Vec<BuildEntry>, index: &SemanticIndex) -> (plan: BuildPlan)
    requires
        index.fingerprints@.len() == index.keys@.len(),
    ensures
        plan.plans(catalog_items(entries@), index_items(index.keys@, index.fingerprints@)),
{
    let mut positions = index_positions(index);
    let ghost items = index_items(index.keys@, index.fingerprints@);
    let ghost wanted = catalog_items(entries@);
    let total: usize = entries.len();
    let mut reuse: Vec<Option<usize>> = Vec::new();
    let mut missing: usize = 0;
    let mut position: usize = 0;
    assert(wanted.take(0) =~= Seq::<ItemView>::empty());
    while position < entries.len()
        invariant
            position <= entries@.len() == total,
            wanted == catalog_items(entries@),
            tells_positions(positions@, items, wanted.take(position as int)),
            reuse@.len() == position,
            missing <= position,
            missing == missing_before(reuse@, position as nat),
            forall|i: int|
                0 <= i < position ==> position_view(#[trigger] reuse@[i]) == reused_position(
                    wanted,
                    items,
                    i,
                ),
        decreases entries@.len() - position,
    {
        let entry = &entries[position];
        let ghost item = wanted[position as int];
        let ghost taken = wanted.take(position as int);
        let ghost before = positions@;
        let ghost reused = reuse@;
        let name = lookup_text(entry.key.as_str(), entry.fingerprint);
        assert(name@ == item_text(item));
        let found: Option<usize> = match positions.get(name.as_str()) {
            Some(found) => Some(*found),
            None => None,
        };
        proof {
            assert(before.contains_key(item_text(item)) <==> last_position(items, item) is Some
                && !taken.contains(item));
            assert(position_view(found) == reused_position(wanted, items, position as int));
        }
        positions.remove(name.as_str());
        if found.is_none() {
            missing = missing + 1;
        }
        reuse.push(found);
        proof {
            lemma_missing_prefix(reused, reuse@, position as nat);
            let next = wanted.take(position + 1);
            assert(next =~= taken.push(item));
            assert forall|other: ItemView|
                {
                    &&& positions@.contains_key(#[trigger] item_text(other)) <==> last_position(
                        items,
                        other,
                    ) is Some && !next.contains(other)
                    &&& positions@.contains_key(item_text(other)) ==> last_position(items, other)
                        == Some(positions@[item_text(other)] as nat)
                } by {
                assert(before.contains_key(item_text(other)) <==> last_position(items, other) is Some
                    && !taken.contains(other));
                if item_text(other) == item_text(item) {
                    lemma_item_text_injective(other, item);
                    assert(next.last() == other);
                    assert(next.contains(other));
                } else {
                    if taken.contains(other) {
                        let k = choose|k: int| 0 <= k < taken.len() && taken[k] == other;
                        assert(next[k] == other);
                    }
                    if next.contains(other) {
                        let k = choose|k: int| 0 <= k < next.len() && next[k] == other;
                        assert(k < taken.len());
                        assert(taken[k] == other);
                    }
                }
            }
        }
        position = position + 1;
    }
    BuildPlan { reuse, missing }
}

proof fn lemma_missing_prefix(
    before: Seq<Option<usize>>,
    after: Seq<Option<usize>>,
    end: nat,
)
    requires
        end <= before.len(),
        end <= after.len(),
        forall|i: int| 0 <= i < end ==> before[i] == after[i],
    ensures
        missing_before(before, end) == missing_before(after, end),
    decreases end,
{
    if end > 0 {
        lemma_missing_prefix(before, after, (end - 1) as nat);
    }
}

/// The entries of an index that a build for a model can reuse: none where the index belongs to
/// another model, or its embeddings have another size.
pub open spec fn reusable_items(
    index: Option<SemanticIndex>,
    model: Seq<char>,
    dimensions: usize,
) -> Seq<ItemView> {
    match index {
        Some(index) => if index.model@ == model && index.dimensions == dimensions {
            index_items(index.keys@, index.fingerprints@)
        } else {
            Seq::empty()
        },
        None => Seq::empty(),
    }
}

/// Plans a build: what it reuses of the index that is already there, if there is one.
pub fn plan_reuse(
    entries: &Vec<BuildEntry>,
    index: &Option<SemanticIndex>,
    model: &str,
    dimensions: usize,
) -> (plan: BuildPlan)
    requires
        index matches Some(found) ==> found.is_complete(),
    ensures
        plan.plans(catalog_items(entries@), reusable_items(*index, model@, dimensions)),
{
    if let Some(found) = index {
        if text::same(found.model.as_str(), model) && found.dimensions == dimensions {
            return plan_build(entries, found);
        }
    }
    let nothing = SemanticIndex {
        model: String::new(),
        keys: Vec::new(),
        fingerprints: Vec::new(),
        groups: Vec::new(),
        embeddings: Vec::new(),
        dimensions,
    };
    assert(index_items(nothing.keys@, nothing.fingerprints@) =~= Seq::<ItemView>::empty());
    plan_build(entries, &nothing)
}

proof fn lemma_last_position(items: Seq<ItemView>, item: ItemView)
    ensures
        last_position(items, item) matches Some(position) ==> position < items.len()
            && items[position as int] == item,
        last_position(items, item) is None ==> !items.contains(item),
    decreases items.len(),
{
    if items.len() > 0 && items.last() != item {
        lemma_last_position(items.drop_last(), item);
        if items.contains(item) {
            let k = choose|k: int| 0 <= k < items.len() && items[k] == item;
            assert(items.drop_last()[k] == item);
        }
    }
}

/// A build reuses an embedding only for the key and the fingerprint that it was made for, and no
/// embedding twice; the first entry with a key and a fingerprint that the index knows reuses one.
pub proof fn law_reuse_is_exact(
    plan: BuildPlan,
    entries: Seq<ItemView>,
    index: Seq<ItemView>,
    entry: int,
)
    requires
        plan.plans(entries, index),
        0 <= entry < entries.len(),
    ensures
        plan.reuse@[entry] matches Some(position) ==> position < index.len()
            && index[position as int] == entries[entry],
        forall|other: int|
            0 <= other < entries.len() && other != entry && plan.reuse@[entry] is Some
                ==> #[trigger] plan.reuse@[other] != plan.reuse@[entry],
        !entries.take(entry).contains(entries[entry]) && index.contains(entries[entry])
            ==> plan.reuse@[entry] is Some,
{
    lemma_last_position(index, entries[entry]);
    assert(position_view(plan.reuse@[entry]) == reused_position(entries, index, entry));
    assert forall|other: int|
        0 <= other < entries.len() && other != entry && plan.reuse@[entry] is Some implies
        #[trigger] plan.reuse@[other] != plan.reuse@[entry] by {
        assert(position_view(plan.reuse@[other]) == reused_position(entries, index, other));
        lemma_last_position(index, entries[other]);
        if entries[other] == entries[entry] {
            if other < entry {
                assert(entries.take(entry)[other] == entries[entry]);
            } else {
                assert(entries.take(other)[entry] == entries[other]);
            }
        }
    }
}

/// The embedding of an entry of an index.
pub fn reused_embedding(index: &SemanticIndex, position: usize) -> (embedding: Vec<u32>)
    requires
        index.is_complete(),
        position < index.keys@.len(),
    ensures
        embedding@ == index.embeddings@.subrange(
            position * index.dimensions,
            position * index.dimensions + index.dimensions,
        ),
{
    proof {
        assert((position + 1) * index.dimensions <= index.keys@.len() * index.dimensions)
            by (nonlinear_arith)
            requires
                position < index.keys@.len(),
        ;
        assert((position + 1) * index.dimensions == position * index.dimensions + index.dimensions)
            by (nonlinear_arith);
        assert(0 <= position * index.dimensions) by (nonlinear_arith);
    }
    let total: usize = index.embeddings.len();
    let start: usize = position * index.dimensions;
    let mut embedding: Vec<u32> = Vec::new();
    embedding.extend_from_slice(
        vstd::slice::slice_subrange(
            index.embeddings.as_slice(),
            start,
            start + index.dimensions,
        ),
    );
    assert(embedding@ =~= index.embeddings@.subrange(start as int, start + index.dimensions));
    embedding
}

/// Checks that there is something to build an index over.
pub fn check_catalog(entries: usize) -> (result: Result<(), Failure>)
    ensures
        match result {
            Ok(_) => entries > 0,
            Err(failure) => entries == 0 && failure@ == plain_failure(
                "semantic catalog is empty"@,
            ),
        },
{
    if entries == 0 {
        return Err(Failure::plain("semantic catalog is empty"));
    }
    Ok(())
}

/// What is said before anything is encoded.
pub open spec fn initial_text(missing: nat, reused: nat) -> Seq<char> {
    if missing == 0 {
        "Reusing "@ + decimal_text(reused) + " cached embeddings"@
    } else {
        "Encoding "@ + decimal_text(missing) + " new or changed embeddings; reusing "@
            + decimal_text(reused)
    }
}

/// How far an index build has come.
#[derive(Debug, Clone, Copy, PartialEq, Eq)]
pub struct BuildRun {
    pub total: usize,
    pub missing: usize,
    pub processed: usize,
    pub encoded: usize,
}

impl BuildRun {
    /// Whether the counts can come about: no more is encoded than was tried, nor tried than is
    /// missing.
    pub open spec fn is_consistent(self) -> bool {
        self.encoded <= self.processed <= self.missing <= self.total
    }

    /// Starts a build.
    pub fn begin(plan: &BuildPlan) -> (run: BuildRun)
        requires
            plan.missing <= plan.reuse@.len(),
        ensures
            run == (BuildRun {
                total: plan.reuse@.len() as usize,
                missing: plan.missing,
                processed: 0,
                encoded: 0,
            }),
            run.is_consistent(),
    {
        BuildRun { total: plan.reuse.len(), missing: plan.missing, processed: 0, encoded: 0 }
    }

    /// How many entries reuse an embedding.
    pub fn reused(&self) -> (reused: usize)
        requires
            self.is_consistent(),
        ensures
            reused == self.total - self.missing,
    {
        self.total - self.missing
    }

    /// What is said before anything is encoded.
    pub fn initial_detail(&self) -> (detail: String)
        requires
            self.is_consistent(),
        ensures
            detail@ == initial_text(self.missing as nat, (self.total - self.missing) as nat),
    {
        let reused = text::decimal(self.reused() as u64);
        if self.missing == 0 {
            text::join(text::join("Reusing ", reused.as_str()).as_str(), " cached embeddings")
        } else {
            let encoding = text::join("Encoding ", text::decimal(self.missing as u64).as_str());
            text::join(
                text::join(encoding.as_str(), " new or changed embeddings; reusing ").as_str(),
                reused.as_str(),
            )
        }
    }

    /// Counts one entry that had to be encoded, and whether that succeeded.
    pub fn record(&mut self, encoded: bool)
        requires
            old(self).is_consistent(),
            old(self).processed < old(self).missing,
        ensures
            *final(self) == (BuildRun {
                processed: (old(self).processed + 1) as usize,
                encoded: (old(self).encoded + if encoded {
                    1int
                } else {
                    0int
                }) as usize,
                ..*old(self)
            }),
            final(self).is_consistent(),
    {
        self.processed = self.processed + 1;
        if encoded {
            self.encoded = self.encoded + 1;
        }
    }

    /// The progress to report, where it is due: at every eighth entry and at the last one.
    pub fn progress(&self, detail: &str) -> (progress: Option<BuildProgress>)
        ensures
            progress is Some == (self.processed % 8 == 0 || self.processed == self.missing),
            progress matches Some(update) ==> update.progress == self.processed && update.total
                == self.missing && update.detail@ == detail@,
    {
        if self.processed % 8 != 0 && self.processed != self.missing {
            return None;
        }
        Some(
            BuildProgress {
                progress: self.processed,
                total: self.missing,
                detail: detail.to_owned(),
            },
        )
    }

    /// The words that a build ends with, or the failure of one that has nothing to write.
    pub fn summary(&self, written: usize) -> (summary: Result<String, Failure>)
        requires
            self.is_consistent(),
        ensures
            match summary {
                Ok(text) => written > 0 && text@ == "semantic index: reused "@ + decimal_text(
                    (self.total - self.missing) as nat,
                ) + ", encoded "@ + decimal_text(self.encoded as nat) + ", skipped "@
                    + decimal_text((self.missing - self.encoded) as nat),
                Err(failure) => written == 0 && failure@ == plain_failure(
                    "no semantic catalog images could be encoded"@,
                ),
            },
    {
        if written == 0 {
            return Err(Failure::plain("no semantic catalog images could be encoded"));
        }
        let reused = text::join(
            "semantic index: reused ",
            text::decimal(self.reused() as u64).as_str(),
        );
        let encoded = text::join(
            text::join(reused.as_str(), ", encoded ").as_str(),
            text::decimal(self.encoded as u64).as_str(),
        );
        let skipped: usize = self.missing - self.encoded;
        Ok(
            text::join(
                text::join(encoded.as_str(), ", skipped ").as_str(),
                text::decimal(skipped as u64).as_str(),
            ),
        )
    }
}

/// The value of an embedding that may be missing.
pub open spec fn embedding_view(embedding: Option<Vec<u32>>) -> Option<Seq<u32>> {
    match embedding {
        Some(embedding) => Some(embedding@),
        None => None,
    }
}

/// What is written of an entry: the embedding that it reuses, or the one that was made for it.
/// Nothing is written of an entry for which none could be made.
pub open spec fn written_record(
    entry: BuildEntry,
    reuse: Option<usize>,
    index: SemanticIndex,
    made: Option<Seq<u32>>,
) -> Option<RecordView> {
    let record = |embedding: Seq<u32>|
        RecordView { key: entry.key@, fingerprint: entry.fingerprint, embedding };
    match reuse {
        Some(position) => Some(
            record(
                index.embeddings@.subrange(
                    position * index.dimensions,
                    position * index.dimensions + index.dimensions,
                ),
            ),
        ),
        None => match made {
            Some(embedding) => Some(record(embedding)),
            None => None,
        },
    }
}

/// What is written of the first `end` entries, in their order; `made` holds, for each entry that
/// reuses nothing, the embedding that was made for it.
pub open spec fn written_records(
    entries: Seq<BuildEntry>,
    reuse: Seq<Option<usize>>,
    index: SemanticIndex,
    made: Seq<Option<Vec<u32>>>,
    end: nat,
) -> Seq<RecordView>
    decreases end,
{
    if end == 0 {
        Seq::empty()
    } else {
        let earlier = written_records(entries, reuse, index, made, (end - 1) as nat);
        let own = embedding_view(made[missing_before(reuse, (end - 1) as nat) as int]);
        match written_record(entries[end - 1], reuse[end - 1], index, own) {
            Some(record) => earlier.push(record),
            None => earlier,
        }
    }
}

fn copy_embedding(embedding: &Vec<u32>) -> (copy: Vec<u32>)
    ensures
        copy@ == embedding@,
{
    let mut copy: Vec<u32> = Vec::new();
    copy.extend_from_slice(embedding.as_slice());
    assert(copy@ =~= embedding@);
    copy
}

fn push_record(output: &mut Vec<(BuildEntry, Vec<u32>)>, entry: &BuildEntry, embedding: Vec<u32>)
    ensures
        encoded_records(final(output)@) == encoded_records(old(output)@).push(
            RecordView { key: entry.key@, fingerprint: entry.fingerprint, embedding: embedding@ },
        ),
{
    let ghost before = encoded_records(output@);
    let ghost record = RecordView {
        key: entry.key@,
        fingerprint: entry.fingerprint,
        embedding: embedding@,
    };
    let copy = BuildEntry {
        key: entry.key.clone(),
        path: entry.path.clone(),
        fingerprint: entry.fingerprint,
        view: entry.view,
    };
    output.push((copy, embedding));
    assert(encoded_records(output@) =~= before.push(record));
}

proof fn lemma_missing_monotone(reuse: Seq<Option<usize>>, low: nat, high: nat)
    requires
        low <= high,
    ensures
        missing_before(reuse, low) <= missing_before(reuse, high),
    decreases high - low,
{
    if low < high {
        lemma_missing_monotone(reuse, low, (high - 1) as nat);
    }
}

/// Stands for an index where there is none.
pub open spec fn no_index() -> SemanticIndex {
    choose|index: SemanticIndex| index.is_complete()
}

/// Puts together what is written: the entries in their order, each with the embedding that it
/// reuses or that was made for it.
pub fn assemble(
    entries: &Vec<BuildEntry>,
    plan: &BuildPlan,
    index: &Option<SemanticIndex>,
    made: &Vec<Option<Vec<u32>>>,
) -> (written: Vec<(BuildEntry, Vec<u32>)>)
    requires
        plan.reuse@.len() == entries@.len(),
        made@.len() == missing_before(plan.reuse@, plan.reuse@.len()),
        index is None ==> forall|i: int|
            0 <= i < plan.reuse@.len() ==> (#[trigger] plan.reuse@[i]) is None,
        index matches Some(found) ==> found.is_complete() && forall|i: int|
            0 <= i < plan.reuse@.len() ==> ((#[trigger] plan.reuse@[i]) matches Some(position)
                ==> position < found.keys@.len()),
    ensures
        match *index {
            Some(found) => encoded_records(written@) == written_records(
                entries@,
                plan.reuse@,
                found,
                made@,
                entries@.len(),
            ),
            None => forall|any: SemanticIndex|
                encoded_records(written@) == #[trigger] written_records(
                    entries@,
                    plan.reuse@,
                    any,
                    made@,
                    entries@.len(),
                ),
        },
        *index is None ==> encoded_records(written@) == written_records(
            entries@,
            plan.reuse@,
            no_index(),
            made@,
            entries@.len(),
        ),
{
    let total: usize = made.len();
    let mut written: Vec<(BuildEntry, Vec<u32>)> = Vec::new();
    let mut position: usize = 0;
    let mut next: usize = 0;
    assert(encoded_records(written@) =~= Seq::<RecordView>::empty());
    while position < entries.len()
        invariant
            position <= entries@.len(),
            plan.reuse@.len() == entries@.len(),
            made@.len() == missing_before(plan.reuse@, plan.reuse@.len()),
            made@.len() == total,
            next == missing_before(plan.reuse@, position as nat),
            index is None ==> forall|i: int|
                0 <= i < plan.reuse@.len() ==> (#[trigger] plan.reuse@[i]) is None,
            index matches Some(found) ==> found.is_complete() && forall|i: int|
                0 <= i < plan.reuse@.len() ==> ((#[trigger] plan.reuse@[i]) matches Some(position)
                    ==> position < found.keys@.len()),
            match *index {
                Some(found) => encoded_records(written@) == written_records(
                    entries@,
                    plan.reuse@,
                    found,
                    made@,
                    position as nat,
                ),
                None => forall|any: SemanticIndex|
                    encoded_records(written@) == #[trigger] written_records(
                        entries@,
                        plan.reuse@,
                        any,
                        made@,
                        position as nat,
                    ),
            },
        decreases entries@.len() - position,
    {
        let ghost before = encoded_records(written@);
        let entry = &entries[position];
        match plan.reuse[position] {
            Some(reused) => {
                if let Some(found) = index {
                    push_record(&mut written, entry, reused_embedding(found, reused));
                }
            },
            None => {
                proof {
                    lemma_missing_monotone(
                        plan.reuse@,
                        (position + 1) as nat,
                        plan.reuse@.len(),
                    );
                }
                if let Some(embedding) = &made[next] {
                    push_record(&mut written, entry, copy_embedding(embedding));
                }
                next = next + 1;
            },
        }
        proof {
            if index is None {
                assert forall|any: SemanticIndex|
                    encoded_records(written@) == #[trigger] written_records(
                        entries@,
                        plan.reuse@,
                        any,
                        made@,
                        (position + 1) as nat,
                    ) by {
                    assert(before == written_records(
                        entries@,
                        plan.reuse@,
                        any,
                        made@,
                        position as nat,
                    ));
                }
            }
        }
        position = position + 1;
    }
    written
}

} // verus!
