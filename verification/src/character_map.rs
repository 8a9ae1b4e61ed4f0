//! The character maps that tokenizers carry: a double-array trie over the bytes of what is replaced,
//! and the replacements, each up to a zero byte.
//!
//! A map begins with the size of the trie in bytes, then come the units of the trie, four bytes each,
//! and then the replacements. All numbers are little-endian.

use vstd::prelude::*;
use vstd::slice::slice_subrange;
use vstd::utf8::*;

use crate::bytes::{le_value, lemma_le_limits, lemma_le_value_bound, read_le};
use crate::text;

verus! {

/// Whether a position in a text's bytes is the start of a character or the end.
pub open spec fn is_boundary(bytes: Seq<u8>, at: int) -> bool {
    at == bytes.len() || (0 <= at < bytes.len() && !(0x80 <= bytes[at] < 0xc0))
}

/// Tells whether a position in a text's bytes is the start of a character or the end.
pub fn boundary(bytes: &[u8], at: usize) -> (b: bool)
    ensures
        b == is_boundary(bytes@, at as int),
{
    at == bytes.len() || (at < bytes.len() && !(0x80 <= bytes[at] && bytes[at] < 0xc0))
}

/// Whether a unit leads on to a replacement.
pub open spec fn unit_ends(unit: u32) -> bool {
    unit / 256 % 2 == 1
}

/// Where the replacement begins that a unit stands for.
pub open spec fn unit_value(unit: u32) -> u32 {
    unit % 0x8000_0000
}

/// Whether a unit is reached by a byte.
pub open spec fn unit_takes(unit: u32, byte: u8) -> bool {
    unit < 0x8000_0000 && unit % 256 == byte
}

/// How far the units that follow a unit are from it.
pub open spec fn unit_offset(unit: u32) -> u32 {
    if unit / 512 % 2 == 1 {
        (unit / 1024 * 256) as u32
    } else {
        unit / 1024
    }
}

fn ends(unit: u32) -> (b: bool)
    ensures
        b == unit_ends(unit),
{
    unit / 256 % 2 == 1
}

fn offset(unit: u32) -> (distance: u32)
    ensures
        distance == unit_offset(unit),
{
    if unit / 512 % 2 == 1 {
        unit / 1024 * 256
    } else {
        unit / 1024
    }
}

/// The size of a map's trie in bytes, as the map states it.
pub open spec fn stated_size(map: Seq<u8>) -> nat {
    le_value(map.take(4))
}

/// How many units a map's trie has.
pub open spec fn unit_count(map: Seq<u8>) -> nat {
    stated_size(map) / 4
}

/// A unit of a map's trie.
pub open spec fn unit_at(map: Seq<u8>, at: int) -> u32 {
    le_value(map.subrange(4 + 4 * at, 8 + 4 * at)) as u32
}

/// The units of a map's trie.
pub open spec fn map_units(map: Seq<u8>) -> Seq<u32> {
    Seq::new(unit_count(map), |i: int| unit_at(map, i))
}

fn read_size(map: &[u8]) -> (size: u32)
    requires
        map@.len() >= 4,
    ensures
        size == stated_size(map@),
{
    proof {
        lemma_le_value_bound(map@.take(4));
        lemma_le_limits();
    }
    let size: u64 = read_le(slice_subrange(map, 0, 4));
    assert(map@.subrange(0, 4) =~= map@.take(4));
    size as u32
}

fn read_units(map: &[u8]) -> (units: Vec<u32>)
    requires
        map@.len() >= 4,
        4 + 4 * unit_count(map@) <= map@.len(),
    ensures
        units@ == map_units(map@),
{
    let count: usize = read_size(map) as usize / 4;
    let length: usize = map.len();
    let mut units: Vec<u32> = Vec::new();
    while units.len() < count
        invariant
            length == map@.len(),
            count == unit_count(map@),
            4 + 4 * count <= map@.len(),
            units@.len() <= count,
            units@ == map_units(map@).take(units@.len() as int),
        decreases count - units@.len(),
    {
        let at: usize = units.len();
        let bytes = slice_subrange(map, 4 + 4 * at, 8 + 4 * at);
        proof {
            lemma_le_value_bound(bytes@);
            lemma_le_limits();
        }
        units.push(read_le(bytes) as u32);
        assert(units@ =~= map_units(map@).take(units@.len() as int));
    }
    assert(map_units(map@).take(count as int) =~= map_units(map@));
    units
}

/// Whether a trie holds the whole block of units that a byte can lead to.
pub open spec fn holds_block(count: nat, base: u32) -> bool {
    base / 256 * 256 + 255 < count
}

/// Whether a unit leads only to units of the trie, and to a replacement that begins with a whole
/// character.
pub open spec fn is_closed_unit(units: Seq<u32>, replacements: Seq<u8>, at: int) -> bool {
    units[at] < 0x8000_0000 ==> {
        let base = (at as u32) ^ unit_offset(units[at]);
        &&& holds_block(units.len(), base)
        &&& unit_ends(units[at]) ==> is_boundary(
            replacements,
            unit_value(units[base as int]) as int,
        )
    }
}

/// Whether a map can be followed for every text: its trie is complete and leads nowhere outside
/// itself, and its replacements are text that it points to by whole characters.
pub open spec fn is_closed_map(map: Seq<u8>) -> bool {
    &&& map.len() >= 4
    &&& 4 + 4 * unit_count(map) <= map.len()
    &&& valid_utf8(map.skip(4 + 4 * unit_count(map) as int))
    &&& unit_count(map) > 0
    &&& holds_block(unit_count(map), unit_offset(unit_at(map, 0)))
    &&& forall|i: int|
        0 <= i < unit_count(map) ==> #[trigger] is_closed_unit(
            map_units(map),
            map.skip(4 + 4 * unit_count(map) as int),
            i,
        )
}

fn block_held(count: usize, base: u32) -> (b: bool)
    ensures
        b == holds_block(count as nat, base),
{
    (base / 256) as u64 * 256 + 255 < count as u64
}

/// Tells whether a map can be followed for every text.
pub fn closed_map(map: &[u8]) -> (closed: bool)
    ensures
        closed == is_closed_map(map@),
{
    if map.len() < 4 {
        return false;
    }
    let count: usize = read_size(map) as usize / 4;
    if count == 0 || (map.len() - 4) / 4 < count {
        return false;
    }
    let replacements = slice_subrange(map, 4 + 4 * count, map.len());
    assert(replacements@ =~= map@.skip(4 + 4 * unit_count(map@) as int));
    if text::decode_slice(replacements).is_err() {
        return false;
    }
    let units = read_units(map);
    assert(units@[0] == unit_at(map@, 0));
    if !block_held(count, offset(units[0])) {
        return false;
    }
    proof {
        lemma_le_value_bound(map@.take(4));
        lemma_le_limits();
    }
    let mut at: usize = 0;
    while at < count
        invariant
            units@ == map_units(map@),
            count == unit_count(map@) == units@.len(),
            count <= u32::MAX,
            replacements@ == map@.skip(4 + 4 * unit_count(map@) as int),
            at <= count,
            forall|i: int| 0 <= i < at ==> #[trigger] is_closed_unit(units@, replacements@, i),
        decreases count - at,
    {
        let unit: u32 = units[at];
        if unit < 0x8000_0000 {
            let base: u32 = (at as u32) ^ offset(unit);
            if !block_held(count, base) || (ends(unit) && !boundary(
                replacements,
                (units[base as usize] % 0x8000_0000) as usize,
            )) {
                assert(!is_closed_unit(units@, replacements@, at as int));
                return false;
            }
        }
        assert(is_closed_unit(units@, replacements@, at as int));
        at = at + 1;
    }
    true
}

/// Where a trie has come to after the bytes of a key, if it knows them.
pub open spec fn node_after(units: Seq<u32>, key: Seq<u8>) -> Option<u32>
    decreases key.len(),
{
    if key.len() == 0 {
        if units.len() == 0 {
            None
        } else {
            Some(unit_offset(units[0]))
        }
    } else {
        match node_after(units, key.drop_last()) {
            None => None,
            Some(node) => {
                let at = node ^ (key.last() as u32);
                if at < units.len() && unit_takes(units[at as int], key.last()) {
                    Some(at ^ unit_offset(units[at as int]))
                } else {
                    None
                }
            },
        }
    }
}

/// Whether a trie has a replacement for a key.
pub open spec fn is_entry(units: Seq<u32>, key: Seq<u8>) -> bool {
    key.len() > 0 && match (node_after(units, key.drop_last()), node_after(units, key)) {
        (Some(node), Some(next)) => unit_ends(units[(node ^ (key.last() as u32)) as int]) && next
            < units.len(),
        _ => false,
    }
}

/// Whether a key is the longest with a replacement from a position of a text on.
pub open spec fn is_longest(units: Seq<u32>, bytes: Seq<u8>, start: int, end: int) -> bool {
    &&& start < end <= bytes.len()
    &&& is_entry(units, bytes.subrange(start, end))
    &&& forall|later: int|
        end < later <= bytes.len() ==> !is_entry(units, #[trigger] bytes.subrange(start, later))
}

/// Whether a trie replaces only whole characters of a text; it replaces the longest key that it has.
pub open spec fn keeps_characters(units: Seq<u32>, bytes: Seq<u8>) -> bool {
    forall|start: int, end: int|
        0 <= start && is_boundary(bytes, start) && #[trigger] is_longest(units, bytes, start, end)
            ==> is_boundary(bytes, end)
}

proof fn lemma_unknown_key(units: Seq<u32>, bytes: Seq<u8>, start: int, known: int, end: int)
    requires
        0 <= start <= known <= end <= bytes.len(),
        node_after(units, bytes.subrange(start, known)) is None,
    ensures
        node_after(units, bytes.subrange(start, end)) is None,
    decreases end - known,
{
    if known < end {
        lemma_unknown_key(units, bytes, start, known, end - 1);
        assert(bytes.subrange(start, end).drop_last() =~= bytes.subrange(start, end - 1));
    }
}

fn longest_key(units: &Vec<u32>, bytes: &[u8], start: usize) -> (end: Option<usize>)
    requires
        start <= bytes@.len(),
        units@.len() > 0,
    ensures
        match end {
            Some(end) => is_longest(units@, bytes@, start as int, end as int),
            None => forall|end: int|
                start < end <= bytes@.len() ==> !is_entry(
                    units@,
                    #[trigger] bytes@.subrange(start as int, end),
                ),
        },
{
    let mut node: u32 = offset(units[0]);
    let mut end: usize = start;
    let mut longest: Option<usize> = None;
    assert(bytes@.subrange(start as int, start as int) =~= Seq::<u8>::empty());
    while end < bytes.len()
        invariant
            start <= end <= bytes@.len(),
            units@.len() > 0,
            node_after(units@, bytes@.subrange(start as int, end as int)) == Some(node),
            longest matches Some(last) ==> start < last <= end && is_entry(
                units@,
                bytes@.subrange(start as int, last as int),
            ),
            forall|e: int|
                start < e <= end && (longest matches Some(last) ==> e > last) ==> !is_entry(
                    units@,
                    #[trigger] bytes@.subrange(start as int, e),
                ),
        decreases bytes@.len() - end,
    {
        let byte: u8 = bytes[end];
        let at: u32 = node ^ (byte as u32);
        let ghost key = bytes@.subrange(start as int, end + 1);
        assert(key.drop_last() =~= bytes@.subrange(start as int, end as int));
        assert(key.last() == byte);
        if at as usize >= units.len() || units[at as usize] >= 0x8000_0000 || units[at as usize] % 256
            != byte as u32 {
            proof {
                assert(node_after(units@, key) is None);
                assert forall|e: int| end < e <= bytes@.len() implies !is_entry(
                    units@,
                    #[trigger] bytes@.subrange(start as int, e),
                ) by {
                    lemma_unknown_key(units@, bytes@, start as int, end + 1, e);
                }
            }
            return longest;
        }
        let unit: u32 = units[at as usize];
        node = at ^ offset(unit);
        end = end + 1;
        if ends(unit) && (node as usize) < units.len() {
            assert(is_entry(units@, bytes@.subrange(start as int, end as int)));
            longest = Some(end);
        }
    }
    longest
}

/// Tells whether a trie replaces only whole characters of a text.
pub fn characters_kept(units: &Vec<u32>, bytes: &[u8]) -> (kept: bool)
    ensures
        kept == keeps_characters(units@, bytes@),
{
    if units.len() == 0 {
        assert forall|start: int, end: int| 0 <= start implies !(#[trigger] is_longest(
            units@,
            bytes@,
            start,
            end,
        )) by {
            if start < end <= bytes@.len() {
                assert(bytes@.subrange(start, start) =~= Seq::<u8>::empty());
                lemma_unknown_key(units@, bytes@, start, start, end);
            }
        }
        return true;
    }
    let mut start: usize = 0;
    while start < bytes.len()
        invariant
            start <= bytes@.len(),
            units@.len() > 0,
            forall|s: int, e: int|
                0 <= s < start && is_boundary(bytes@, s) && #[trigger] is_longest(
                    units@,
                    bytes@,
                    s,
                    e,
                ) ==> is_boundary(bytes@, e),
        decreases bytes@.len() - start,
    {
        if boundary(bytes, start) {
            match longest_key(units, bytes, start) {
                Some(end) => {
                    if !boundary(bytes, end) {
                        return false;
                    }
                    assert forall|e: int| #[trigger]
                        is_longest(units@, bytes@, start as int, e) implies is_boundary(
                        bytes@,
                        e,
                    ) by {
                        if e < end {
                            assert(!is_entry(units@, bytes@.subrange(start as int, end as int)));
                        }
                        if e > end {
                            assert(!is_entry(units@, bytes@.subrange(start as int, e)));
                        }
                    }
                },
                None => {
                    assert forall|e: int| !(#[trigger] is_longest(
                        units@,
                        bytes@,
                        start as int,
                        e,
                    )) by {
                        if start < e <= bytes@.len() {
                            assert(!is_entry(units@, bytes@.subrange(start as int, e)));
                        }
                    }
                },
            }
        }
        start = start + 1;
    }
    true
}

/// Whether what a map states of its size is true of it, so that it can be taken apart; a map whose
/// statement is refused is not taken apart.
pub open spec fn is_sized_map(map: Seq<u8>) -> bool {
    map.len() > 4 && 1024 <= stated_size(map) < map.len() && stated_size(map) % 1024 == 0 ==> 4
        + stated_size(map) <= map.len()
}

/// Tells whether what a map states of its size is true of it.
pub fn sized_map(map: &[u8]) -> (sized: bool)
    ensures
        sized == is_sized_map(map@),
{
    if map.len() <= 4 {
        return true;
    }
    let size: usize = read_size(map) as usize;
    !(1024 <= size && size < map.len() && size % 1024 == 0) || size <= map.len() - 4
}

/// The units of a map's trie, and none where the map is too short to hold them.
pub open spec fn readable_units(map: Seq<u8>) -> Seq<u32> {
    if map.len() >= 4 && 4 + 4 * unit_count(map) <= map.len() {
        map_units(map)
    } else {
        Seq::empty()
    }
}

/// Reads the units of a map's trie.
pub fn trie_units(map: &[u8]) -> (units: Vec<u32>)
    ensures
        units@ == readable_units(map@),
{
    if map.len() < 4 || (map.len() - 4) / 4 < read_size(map) as usize / 4 {
        let units: Vec<u32> = Vec::new();
        assert(units@ =~= Seq::<u32>::empty());
        return units;
    }
    read_units(map)
}

} // verus!
