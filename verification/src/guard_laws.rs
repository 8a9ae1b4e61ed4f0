//! What the parts of a tokenizer file hold where they can be worked with.

use vstd::prelude::*;
use vstd::utf8::*;

use crate::character_map::{
    characters_kept, closed_map, is_boundary, is_closed_unit, is_longest, map_units, sized_map,
    trie_units, unit_count, unit_offset,
};
use crate::index_laws::{four_bytes, law_numbers_are_little_endian};
use crate::json::{json_view, lemma_json_view, member_views, parse, Json, JsonView};
use crate::merge_rules::{closed_model, is_joined, is_pair_rule};
use crate::text;
use crate::tokenizer_file::{find, last_named, named, tokenizer_safe, Members};

verus! {

/// Of several members with one name the last counts, and a name that no member has is not found.
pub proof fn law_the_last_member_counts(
    members: &Vec<(String, Json)>,
    name: &str,
    found: Option<usize>,
)
    requires
        call_ensures(find, (members, name), found),
    ensures
        found matches Some(at) ==> {
            &&& at < members@.len()
            &&& members@[at as int].0@ == name@
            &&& forall|i: int| at < i < members@.len() ==> (#[trigger] members@[i]).0@ != name@
        },
        found is None ==> forall|i: int|
            0 <= i < members@.len() ==> (#[trigger] members@[i]).0@ != name@,
{
    let views = member_views(members@);
    lemma_last_named(views, name@, members@.len() as int);
    assert forall|i: int| 0 <= i < members@.len() implies (#[trigger] members@[i]).0@ == views[i].0 by {
    }
}

proof fn lemma_last_named(members: Members, name: Seq<char>, end: int)
    requires
        0 <= end <= members.len(),
    ensures
        -1 <= last_named(members, name, end) < end,
        last_named(members, name, end) >= 0 ==> members[last_named(members, name, end)].0 == name,
        forall|i: int|
            last_named(members, name, end) < i < end ==> (#[trigger] members[i]).0 != name,
    decreases end,
{
    if end > 0 && members[end - 1].0 != name {
        lemma_last_named(members, name, end - 1);
    }
}

/// Whether a member is the only one with a name.
pub open spec fn is_only(members: Members, at: int, name: Seq<char>) -> bool {
    &&& 0 <= at < members.len()
    &&& members[at].0 == name
    &&& forall|i: int| 0 <= i < members.len() && i != at ==> (#[trigger] members[i]).0 != name
}

proof fn lemma_only(members: Members, at: int, name: Seq<char>)
    requires
        is_only(members, at, name),
    ensures
        named(members, name) == at,
        last_named(members, name, at) == -1,
{
    lemma_last_named(members, name, members.len() as int);
    lemma_last_named(members, name, at);
    let found = named(members, name);
    if found < at {
        assert(members[at].0 != name);
    }
    if found > at {
        assert(members[found].0 != name);
    }
    let earlier = last_named(members, name, at);
    if earlier >= 0 {
        assert(members[earlier].0 != name);
    }
}

/// A byte-pair model whose rules are pairs is closed exactly if both tokens of every rule, and what
/// they make when put together, are in the vocabulary.
pub proof fn law_merges_stay_in_the_vocabulary(
    json: &Json,
    members: Members,
    kind: int,
    vocab: int,
    merges: int,
    vocabulary: Members,
    rules: Seq<(Seq<char>, Seq<char>)>,
    closed: bool,
)
    requires
        json_view(*json) == JsonView::Object(members),
        is_only(members, kind, "type"@),
        members[kind].1 == JsonView::Text("BPE"@),
        is_only(members, vocab, "vocab"@),
        members[vocab].1 == JsonView::Object(vocabulary),
        is_only(members, merges, "merges"@),
        members[merges].1 == JsonView::List(
            Seq::new(
                rules.len(),
                |i: int| JsonView::List(seq![JsonView::Text(rules[i].0), JsonView::Text(rules[i].1)]),
            ),
        ),
        forall|i: int|
            0 <= i < members.len() ==> (#[trigger] members[i]).0 != "continuing_subword_prefix"@,
        call_ensures(closed_model, (json,), closed),
    ensures
        closed <==> forall|i: int|
            0 <= i < rules.len() ==> {
                &&& is_in(vocabulary, (#[trigger] rules[i]).0)
                &&& is_in(vocabulary, rules[i].1)
                &&& is_in(vocabulary, rules[i].0 + rules[i].1)
            },
{
    reveal_strlit("BPE");
    reveal_strlit("WordPiece");
    reveal_strlit("WordLevel");
    reveal_strlit("Unigram");
    reveal_strlit("");
    assert("BPE"@.len() != "WordPiece"@.len());
    assert("BPE"@.len() != "WordLevel"@.len());
    assert("BPE"@.len() != "Unigram"@.len());
    lemma_only(members, kind, "type"@);
    lemma_only(members, vocab, "vocab"@);
    lemma_only(members, merges, "merges"@);
    lemma_last_named(members, "continuing_subword_prefix"@, members.len() as int);
    let written = members[merges].1->List_0;
    assert forall|i: int| 0 <= i < rules.len() implies is_pair_rule(
        #[trigger] written[i],
        ""@,
        vocabulary,
    ) == (is_in(vocabulary, rules[i].0) && is_in(vocabulary, rules[i].1) && is_in(
        vocabulary,
        rules[i].0 + rules[i].1,
    )) by {
        assert(rules[i].1.skip(0) =~= rules[i].1);
        assert(rules[i].1.take(0) =~= ""@);
        assert(text::begins_with(rules[i].1, ""@));
        assert(is_pair_rule(written[i], ""@, vocabulary) == is_joined(
            rules[i].0,
            rules[i].1,
            ""@,
            vocabulary,
        ));
    }
    if closed {
        assert forall|i: int| 0 <= i < rules.len() implies is_in(vocabulary, (#[trigger] rules[i]).0)
            && is_in(vocabulary, rules[i].1) && is_in(vocabulary, rules[i].0 + rules[i].1) by {
            assert(written[i] is List);
            assert(is_pair_rule(written[i], ""@, vocabulary));
        }
    } else {
        let i = choose|i: int|
            0 <= i < written.len() && !is_pair_rule(#[trigger] written[i], ""@, vocabulary);
        let rule = rules[i];
        assert(is_pair_rule(written[i], ""@, vocabulary) == (is_in(vocabulary, rule.0) && is_in(
            vocabulary,
            rule.1,
        ) && is_in(vocabulary, rule.0 + rule.1)));
    }
}

/// Whether a token is in a vocabulary.
pub open spec fn is_in(vocabulary: Members, token: Seq<char>) -> bool {
    exists|i: int| 0 <= i < vocabulary.len() && (#[trigger] vocabulary[i]).0 == token
}

/// A tokenizer file that can be worked with is text that is read as an object, and each model in it
/// is closed.
pub proof fn law_safe_tokenizers_are_objects(
    file: &[u8],
    safe: bool,
    text: &str,
    read: Option<Json>,
)
    requires
        call_ensures(tokenizer_safe, (file,), safe),
        safe,
        text@ == decode_utf8(file@),
        call_ensures(parse, (text,), read),
    ensures
        valid_utf8(file@),
        read matches Some(Json::Object(parts)) && forall|i: int, closed: bool|
            0 <= i < parts@.len() && (#[trigger] parts@[i]).0@ == "model"@ && #[trigger] call_ensures(
                closed_model,
                (&parts@[i].1,),
                closed,
            ) ==> closed,
{
    reveal_strlit("normalizer");
    reveal_strlit("pre_tokenizer");
    reveal_strlit("post_processor");
    reveal_strlit("decoder");
    reveal_strlit("model");
    assert("model"@[0] == 'm' && "normalizer"@[0] == 'n' && "pre_tokenizer"@[0] == 'p'
        && "post_processor"@[0] == 'p' && "decoder"@[0] == 'd');
    let value = read->Some_0;
    lemma_json_view(value);
    assert(read is Some);
    assert(value is Object);
    let parts = value->Object_0;
    assert forall|i: int, closed: bool|
        0 <= i < parts@.len() && (#[trigger] parts@[i]).0@ == "model"@ && #[trigger] call_ensures(
            closed_model,
            (&parts@[i].1,),
            closed,
        ) implies closed by {
        assert(member_views(parts@)[i] == (parts@[i].0@, json_view(parts@[i].1)));
    }
}

/// The units of a map are its numbers after the first, which says how many bytes they fill; a map
/// that is too short for them has none.
pub proof fn law_units_follow_their_size(map: &[u8], units: Vec<u32>)
    requires
        call_ensures(trie_units, (map,), units),
    ensures
        map@.len() < 4 ==> units@.len() == 0,
        map@.len() >= 4 && 4 + four_bytes(map@, 0) / 4 * 4 > map@.len() ==> units@.len() == 0,
        map@.len() >= 4 && 4 + four_bytes(map@, 0) / 4 * 4 <= map@.len() ==> {
            &&& units@.len() == four_bytes(map@, 0) / 4
            &&& forall|i: int|
                0 <= i < units@.len() ==> #[trigger] units@[i] == four_bytes(map@, 4 + 4 * i)
        },
{
    if map@.len() >= 4 {
        law_numbers_are_little_endian(map@.take(4));
        if 4 + four_bytes(map@, 0) / 4 * 4 <= map@.len() {
            assert forall|i: int| 0 <= i < units@.len() implies #[trigger] units@[i] == four_bytes(
                map@,
                4 + 4 * i,
            ) by {
                law_numbers_are_little_endian(map@.subrange(4 + 4 * i, 8 + 4 * i));
            }
        }
    }
}

/// A map's stated size is refused only where the map would be taken apart by it and ends before.
pub proof fn law_sizes_are_true(map: &[u8], sized: bool)
    requires
        call_ensures(sized_map, (map,), sized),
    ensures
        !sized <==> {
            &&& map@.len() > 4
            &&& 1024 <= four_bytes(map@, 0) < map@.len()
            &&& four_bytes(map@, 0) % 1024 == 0
            &&& map@.len() - 4 < four_bytes(map@, 0)
        },
{
    if map@.len() > 4 {
        law_numbers_are_little_endian(map@.take(4));
    }
}

/// From no unit of a closed map that leads on does any byte lead outside its units.
pub proof fn law_closed_maps_lead_nowhere_outside(
    map: &[u8],
    units: Vec<u32>,
    at: u32,
    byte: u8,
)
    requires
        call_ensures(closed_map, (map,), true),
        call_ensures(trie_units, (map,), units),
        at < units@.len(),
        units@[at as int] < 0x8000_0000,
    ensures
        ({
            let unit = units@[at as int];
            (at ^ ((unit >> 10u32) << ((unit & 512u32) >> 6u32)) ^ (byte as u32)) < units@.len()
        }),
{
    let unit = units@[at as int];
    let base = at ^ unit_offset(unit);
    assert(is_closed_unit(
        map_units(map@),
        map@.skip(4 + 4 * unit_count(map@) as int),
        at as int,
    ));
    lemma_offset(unit);
    let next = base ^ (byte as u32);
    assert(next <= base / 256 * 256 + 255) by (bit_vector)
        requires
            next == base ^ (byte as u32),
    ;
}

proof fn lemma_offset(unit: u32)
    requires
        unit < 0x8000_0000,
    ensures
        unit_offset(unit) == (unit >> 10u32) << ((unit & 512u32) >> 6u32),
{
    assert(unit / 512 % 2 == 1 ==> (unit / 1024 * 256) as u32 == (unit >> 10u32) << ((unit & 512u32)
        >> 6u32)) by (bit_vector)
        requires
            unit < 0x8000_0000u32,
    ;
    assert(unit / 512 % 2 != 1 ==> unit / 1024 == (unit >> 10u32) << ((unit & 512u32) >> 6u32))
        by (bit_vector)
        requires
            unit < 0x8000_0000u32,
    ;
}

/// Where every character of a text is one byte, none is ever taken apart.
pub proof fn law_single_bytes_are_kept(units: &Vec<u32>, bytes: &[u8], kept: bool)
    requires
        forall|i: int| 0 <= i < bytes@.len() ==> #[trigger] bytes@[i] < 128,
        call_ensures(characters_kept, (units, bytes), kept),
    ensures
        kept,
{
    assert forall|start: int, end: int|
        0 <= start && is_boundary(bytes@, start) && #[trigger] is_longest(
            units@,
            bytes@,
            start,
            end,
        ) implies is_boundary(bytes@, end) by {
        if end < bytes@.len() {
            assert(bytes@[end] < 128);
        }
    }
}

} // verus!
