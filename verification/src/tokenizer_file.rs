//! Which tokenizer files can be loaded and worked with whatever the query: their parts agree with
//! each other.

use vstd::prelude::*;
use vstd::string::*;
use vstd::utf8::*;

use crate::base64::{read_bytes, spelled_bytes};
use crate::character_map::{closed_map, is_closed_map};
use crate::json::{
    item_views, json_view, lemma_json_view, member_views, parse, spelled, Json, JsonView,
};
use crate::merge_rules::{closed_model, is_closed_model};
use crate::pattern::{matches_something, nonempty_matches};
use crate::text;

verus! {

/// The members of an object.
pub type Members = Seq<(Seq<char>, JsonView)>;

/// Where the last of the first members with a name stands, and -1 where none has it.
pub open spec fn last_named(members: Members, name: Seq<char>, end: int) -> int
    decreases end,
{
    if end <= 0 {
        -1
    } else if members[end - 1].0 == name {
        end - 1
    } else {
        last_named(members, name, end - 1)
    }
}

/// Where the last member with a name stands, and -1 where none has it.
pub open spec fn named(members: Members, name: Seq<char>) -> int {
    last_named(members, name, members.len() as int)
}

fn find_before(members: &Vec<(String, Json)>, name: &str, end: usize) -> (found: Option<usize>)
    requires
        end <= members@.len(),
    ensures
        match found {
            Some(at) => at == last_named(member_views(members@), name@, end as int) && at < end,
            None => last_named(member_views(members@), name@, end as int) == -1,
        },
{
    let mut at: usize = end;
    while at > 0
        invariant
            at <= end <= members@.len(),
            last_named(member_views(members@), name@, end as int) == last_named(
                member_views(members@),
                name@,
                at as int,
            ),
        decreases at,
    {
        at = at - 1;
        if text::same(members[at].0.as_str(), name) {
            return Some(at);
        }
    }
    None
}

/// Finds the last member with a name.
pub fn find(members: &Vec<(String, Json)>, name: &str) -> (found: Option<usize>)
    ensures
        match found {
            Some(at) => at == named(member_views(members@), name@) && at < members@.len(),
            None => named(member_views(members@), name@) == -1,
        },
{
    find_before(members, name, members.len())
}

/// The text of the last member with a name, if it is a text.
pub open spec fn named_text(members: Members, name: Seq<char>) -> Option<Seq<char>> {
    let at = named(members, name);
    if 0 <= at < members.len() {
        match members[at].1 {
            JsonView::Text(value) => Some(value),
            _ => None,
        }
    } else {
        None
    }
}

fn find_text<'a>(members: &'a Vec<(String, Json)>, name: &str) -> (found: Option<&'a String>)
    ensures
        match found {
            Some(value) => named_text(member_views(members@), name@) == Some(value@),
            None => named_text(member_views(members@), name@) is None,
        },
{
    match find(members, name) {
        Some(at) => match &members[at].1 {
            Json::Text(value) => Some(value),
            _ => None,
        },
        None => None,
    }
}

/// Whether an object says of what type it is in one text, or not at all.
pub open spec fn is_plainly_typed(members: Members) -> bool {
    let at = named(members, "type"@);
    at == -1 || (named_text(members, "type"@) is Some && last_named(members, "type"@, at) == -1)
}

/// Tells whether an object says of what type it is in one text, or not at all.
pub fn plainly_typed(members: &Vec<(String, Json)>) -> (b: bool)
    ensures
        b == is_plainly_typed(member_views(members@)),
{
    match find(members, "type") {
        None => true,
        Some(at) => find_text(members, "type").is_some() && find_before(members, "type", at).is_none(),
    }
}

/// Whether an object is of a type.
pub open spec fn is_typed(members: Members, name: Seq<char>) -> bool {
    named_text(members, "type"@) == Some(name)
}

/// Tells whether an object is of a type.
pub fn typed(members: &Vec<(String, Json)>, name: &str) -> (b: bool)
    ensures
        b == is_typed(member_views(members@), name@),
{
    match find_text(members, "type") {
        Some(value) => text::same(value.as_str(), name),
        None => false,
    }
}

/// Whether two characters stand next to each other in a text.
pub open spec fn adjoin(p: Seq<char>, first: char, second: char) -> bool {
    exists|i: int| 0 <= i < p.len() - 1 && #[trigger] p[i] == first && p[i + 1] == second
}

fn adjoining(p: &Vec<char>, first: char, second: char) -> (b: bool)
    ensures
        b == adjoin(p@, first, second),
{
    let mut at: usize = 0;
    while p.len() - at > 1
        invariant
            at <= p@.len(),
            forall|i: int|
                0 <= i < at && i < p@.len() - 1 ==> !(#[trigger] p@[i] == first && p@[i + 1]
                    == second),
        decreases p@.len() - at,
    {
        if p[at] == first && p[at + 1] == second {
            return true;
        }
        at = at + 1;
    }
    false
}

/// Whether a regular expression may move the start of what it matches, from a place that it only
/// looks at: it has the escape for that, and groups of another kind than plain ones.
pub open spec fn moves_start(p: Seq<char>) -> bool {
    adjoin(p, '\\', 'K') && adjoin(p, '(', '?')
}

fn start_moved(pattern: &str) -> (b: bool)
    ensures
        b == moves_start(pattern@),
{
    let p = text::characters(pattern);
    adjoining(&p, '\\', 'K') && adjoining(&p, '(', '?')
}

fn blank_text(value: &str) -> (b: bool)
    ensures
        b == (value@.len() == 0),
{
    proof {
        reveal_strlit("");
        assert(value@.len() == 0 ==> value@ =~= ""@);
    }
    text::same(value, "")
}

/// What a pattern matches: never nothing, perhaps nothing, or what cannot be told.
#[derive(Debug, Clone, Copy, PartialEq, Eq, Structural)]
pub enum Matching {
    Something,
    Anything,
    Unclear,
}

/// What the pattern of an object matches: a text stands for itself.
pub open spec fn pattern_matching(members: Members) -> Matching {
    let at = named(members, "pattern"@);
    if 0 <= at < members.len() {
        match members[at].1 {
            JsonView::Object(pattern) => if pattern.len() != 1 {
                Matching::Unclear
            } else {
                match pattern[0].1 {
                    JsonView::Text(value) => if pattern[0].0 == "String"@ {
                        if value.len() > 0 {
                            Matching::Something
                        } else {
                            Matching::Anything
                        }
                    } else if moves_start(value) {
                        Matching::Unclear
                    } else if matches_something(value) {
                        Matching::Something
                    } else {
                        Matching::Anything
                    },
                    _ => Matching::Unclear,
                }
            },
            _ => Matching::Unclear,
        }
    } else {
        Matching::Something
    }
}

fn find_matching(members: &Vec<(String, Json)>) -> (matching: Matching)
    ensures
        matching == pattern_matching(member_views(members@)),
{
    match find(members, "pattern") {
        Some(at) => {
            proof {
                lemma_json_view(members@[at as int].1);
            }
            match &members[at].1 {
                Json::Object(pattern) => {
                    if pattern.len() != 1 {
                        return Matching::Unclear;
                    }
                    assert(member_views(pattern@)[0] == (
                        pattern@[0].0@,
                        json_view(pattern@[0].1),
                    ));
                    match &pattern[0].1 {
                        Json::Text(value) => if text::same(pattern[0].0.as_str(), "String") {
                            if blank_text(value.as_str()) {
                                Matching::Anything
                            } else {
                                Matching::Something
                            }
                        } else if start_moved(value.as_str()) {
                            Matching::Unclear
                        } else if nonempty_matches(value.as_str()) {
                            Matching::Something
                        } else {
                            Matching::Anything
                        },
                        _ => Matching::Unclear,
                    }
                },
                _ => Matching::Unclear,
            }
        },
        None => Matching::Something,
    }
}

/// Whether the character map of an object is spelled in full and can be followed for every text.
pub open spec fn has_closed_map(members: Members) -> bool {
    match named_text(members, "precompiled_charsmap"@) {
        Some(value) => match spelled_bytes(value) {
            Some(map) => is_closed_map(map),
            None => false,
        },
        None => false,
    }
}

fn map_closed(members: &Vec<(String, Json)>) -> (b: bool)
    ensures
        b == has_closed_map(member_views(members@)),
{
    match find_text(members, "precompiled_charsmap") {
        Some(value) => match read_bytes(value.as_str()) {
            Some(map) => closed_map(map.as_slice()),
            None => false,
        },
        None => false,
    }
}

/// Whether an object that replaces text may put something before it, where it matches nothing: after
/// one that has, or by itself. Where that cannot be told there is no answer.
pub open spec fn replacement_state(members: Members, ahead: bool) -> Option<bool> {
    match pattern_matching(members) {
        Matching::Something => Some(ahead),
        Matching::Anything => Some(ahead || named_text(members, "content"@) != Some(""@)),
        Matching::Unclear => None,
    }
}

fn replacement(members: &Vec<(String, Json)>, ahead: bool) -> (state: Option<bool>)
    ensures
        state == replacement_state(member_views(members@), ahead),
{
    match find_matching(members) {
        Matching::Something => Some(ahead),
        Matching::Anything => match find_text(members, "content") {
            Some(content) => Some(ahead || !text::same(content.as_str(), "")),
            None => Some(true),
        },
        Matching::Unclear => None,
    }
}

/// Whether an object that puts a text before another puts nothing there, so that the first character
/// loses its place.
pub open spec fn prepends_nothing(members: Members) -> bool {
    named_text(members, "prepend"@) == Some(""@)
}

fn nothing_prepended(members: &Vec<(String, Json)>) -> (b: bool)
    ensures
        b == prepends_nothing(member_views(members@)),
{
    match find_text(members, "prepend") {
        Some(value) => text::same(value.as_str(), ""),
        None => false,
    }
}

/// Whether something stands before the text after a normalizer, where `ahead` says so of the time
/// before it. There is no answer for a normalizer that cannot be worked with: one whose character map
/// is not closed, or one that changes every character of a text with something before it.
pub open spec fn normalizer_state(json: JsonView, ahead: bool) -> Option<bool>
    decreases json, 0int,
{
    match json {
        JsonView::Null => Some(ahead),
        JsonView::Object(members) => if !is_plainly_typed(members) {
            None
        } else if is_typed(members, "Replace"@) {
            replacement_state(members, ahead)
        } else if is_typed(members, "Prepend"@) {
            Some(ahead || prepends_nothing(members))
        } else if is_typed(members, "Precompiled"@) {
            if ahead || !has_closed_map(members) {
                None
            } else {
                Some(false)
            }
        } else if ahead && !is_typed(members, "Sequence"@) {
            None
        } else {
            match replacement_state(members, ahead || prepends_nothing(members)) {
                None => None,
                Some(ahead) => {
                    let at = named(members, "normalizers"@);
                    if 0 <= at < members.len() {
                        match members[at].1 {
                            JsonView::List(items) => normalizers_state(items, 0, ahead),
                            _ => None,
                        }
                    } else {
                        Some(ahead)
                    }
                },
            }
        },
        _ => None,
    }
}

/// Whether something stands before the text after the normalizers from a position on.
pub open spec fn normalizers_state(items: Seq<JsonView>, at: int, ahead: bool) -> Option<bool>
    decreases items, items.len() - at,
{
    if at < 0 || at >= items.len() {
        Some(ahead)
    } else {
        match normalizer_state(items[at], ahead) {
            Some(ahead) => normalizers_state(items, at + 1, ahead),
            None => None,
        }
    }
}

fn normalizer(json: &Json, ahead: bool) -> (state: Option<bool>)
    ensures
        state == normalizer_state(json_view(*json), ahead),
    decreases json, 0int,
{
    proof {
        lemma_json_view(*json);
    }
    match json {
        Json::Null => Some(ahead),
        Json::Object(members) => {
            if !plainly_typed(members) {
                return None;
            }
            if typed(members, "Replace") {
                return replacement(members, ahead);
            }
            if typed(members, "Prepend") {
                return Some(ahead || nothing_prepended(members));
            }
            if typed(members, "Precompiled") {
                return if ahead || !map_closed(members) {
                    None
                } else {
                    Some(false)
                };
            }
            if ahead && !typed(members, "Sequence") {
                return None;
            }
            let ahead = match replacement(members, ahead || nothing_prepended(members)) {
                Some(ahead) => ahead,
                None => return None,
            };
            match find(members, "normalizers") {
                Some(at) => {
                    proof {
                        lemma_json_view(members@[at as int].1);
                    }
                    match &members[at].1 {
                        Json::List(items) => normalizers(items, ahead),
                        _ => None,
                    }
                },
                None => Some(ahead),
            }
        },
        _ => None,
    }
}

fn normalizers(items: &Vec<Json>, ahead: bool) -> (state: Option<bool>)
    ensures
        state == normalizers_state(item_views(items@), 0, ahead),
    decreases items, 1int,
{
    let mut state = ahead;
    let mut at: usize = 0;
    while at < items.len()
        invariant
            at <= items@.len(),
            normalizers_state(item_views(items@), 0, ahead) == normalizers_state(
                item_views(items@),
                at as int,
                state,
            ),
        decreases items@.len() - at,
    {
        match normalizer(&items[at], state) {
            Some(next) => {
                state = next;
            },
            None => return None,
        }
        at = at + 1;
    }
    Some(state)
}

/// Whether an object splits text into parts of no length.
pub open spec fn splits_to_nothing(members: Members) -> bool {
    let at = named(members, "length"@);
    is_typed(members, "FixedLength"@) && 0 <= at < members.len() && members[at].1
        == JsonView::Number("0"@)
}

fn split_to_nothing(members: &Vec<(String, Json)>) -> (b: bool)
    ensures
        b == splits_to_nothing(member_views(members@)),
{
    if !typed(members, "FixedLength") {
        return false;
    }
    match find(members, "length") {
        Some(at) => match &members[at].1 {
            Json::Number(digits) => text::same(digits.as_str(), "0"),
            _ => false,
        },
        None => false,
    }
}

/// Whether a pre-tokenizer can be worked with: none splits text to nothing, and none moves the start
/// of what it matches.
pub open spec fn is_safe_splitter(json: JsonView) -> bool
    decreases json, 0int,
{
    match json {
        JsonView::Null => true,
        JsonView::Object(members) => if !is_plainly_typed(members) || pattern_matching(members)
            == Matching::Unclear || splits_to_nothing(members) {
            false
        } else {
            let at = named(members, "pretokenizers"@);
            if 0 <= at < members.len() {
                match members[at].1 {
                    JsonView::List(items) => are_safe_splitters(items),
                    _ => false,
                }
            } else {
                true
            }
        },
        _ => false,
    }
}

/// Whether every one of some pre-tokenizers can be worked with.
pub open spec fn are_safe_splitters(items: Seq<JsonView>) -> bool
    decreases items, 1int,
{
    forall|i: int| 0 <= i < items.len() ==> is_safe_splitter(#[trigger] items[i])
}

fn safe_splitter(json: &Json) -> (safe: bool)
    ensures
        safe == is_safe_splitter(json_view(*json)),
    decreases json, 0int,
{
    proof {
        lemma_json_view(*json);
    }
    match json {
        Json::Null => true,
        Json::Object(members) => {
            if !plainly_typed(members) || find_matching(members) == Matching::Unclear
                || split_to_nothing(members) {
                return false;
            }
            match find(members, "pretokenizers") {
                Some(at) => {
                    proof {
                        lemma_json_view(members@[at as int].1);
                    }
                    match &members[at].1 {
                        Json::List(items) => safe_splitters(items),
                        _ => false,
                    }
                },
                None => true,
            }
        },
        _ => false,
    }
}

fn safe_splitters(items: &Vec<Json>) -> (safe: bool)
    ensures
        safe == are_safe_splitters(item_views(items@)),
    decreases items, 1int,
{
    let mut at: usize = 0;
    while at < items.len()
        invariant
            at <= items@.len(),
            forall|i: int| 0 <= i < at ==> is_safe_splitter(#[trigger] item_views(items@)[i]),
        decreases items@.len() - at,
    {
        if !safe_splitter(&items[at]) {
            assert(!is_safe_splitter(item_views(items@)[at as int]));
            return false;
        }
        at = at + 1;
    }
    true
}

/// Whether a pre-tokenizer, or one in it, spells every byte of a text as a character.
pub open spec fn spells_bytes(json: JsonView) -> bool
    decreases json,
{
    match json {
        JsonView::Object(members) => is_typed(members, "ByteLevel"@) || {
            let at = named(members, "pretokenizers"@);
            if 0 <= at < members.len() {
                match members[at].1 {
                    JsonView::List(items) => exists|i: int|
                        0 <= i < items.len() && spells_bytes(#[trigger] items[i]),
                    _ => false,
                }
            } else {
                false
            }
        },
        _ => false,
    }
}

fn bytes_spelled(json: &Json) -> (b: bool)
    ensures
        b == spells_bytes(json_view(*json)),
    decreases json, 0int,
{
    proof {
        lemma_json_view(*json);
    }
    match json {
        Json::Object(members) => {
            if typed(members, "ByteLevel") {
                return true;
            }
            match find(members, "pretokenizers") {
                Some(at) => {
                    proof {
                        lemma_json_view(members@[at as int].1);
                    }
                    match &members[at].1 {
                        Json::List(items) => any_bytes_spelled(items),
                        _ => false,
                    }
                },
                None => false,
            }
        },
        _ => false,
    }
}

fn any_bytes_spelled(items: &Vec<Json>) -> (b: bool)
    ensures
        b == exists|i: int| 0 <= i < items@.len() && spells_bytes(#[trigger] item_views(items@)[i]),
    decreases items, 1int,
{
    let mut at: usize = 0;
    while at < items.len()
        invariant
            at <= items@.len(),
            forall|i: int| 0 <= i < at ==> !spells_bytes(#[trigger] item_views(items@)[i]),
        decreases items@.len() - at,
    {
        if bytes_spelled(&items[at]) {
            assert(spells_bytes(item_views(items@)[at as int]));
            return true;
        }
        at = at + 1;
    }
    false
}

/// How many sequences an entry of a template needs: the second of two needs both. There is no answer
/// for one that names a special token which the template does not know.
pub open spec fn needed_sequences(piece: JsonView, tokens: Members) -> Option<nat> {
    match piece {
        JsonView::Object(variant) => if variant.len() != 1 {
            None
        } else {
            match variant[0].1 {
                JsonView::Object(fields) => if variant[0].0 == "Sequence"@ {
                    if named_text(fields, "id"@) == Some("A"@) {
                        Some(1)
                    } else if named_text(fields, "id"@) == Some("B"@) {
                        Some(2)
                    } else {
                        None
                    }
                } else if variant[0].0 == "SpecialToken"@ {
                    match named_text(fields, "id"@) {
                        Some(id) => if named(tokens, id) >= 0 {
                            Some(0)
                        } else {
                            None
                        },
                        None => None,
                    }
                } else {
                    None
                },
                _ => None,
            }
        },
        _ => None,
    }
}

fn sequences_needed(piece: &Json, tokens: &Vec<(String, Json)>) -> (count: Option<usize>)
    ensures
        match (count, needed_sequences(json_view(*piece), member_views(tokens@))) {
            (Some(count), Some(expected)) => count == expected,
            (None, None) => true,
            _ => false,
        },
{
    proof {
        lemma_json_view(*piece);
    }
    match piece {
        Json::Object(variant) => {
            if variant.len() != 1 {
                return None;
            }
            proof {
                assert(member_views(variant@)[0] == (variant@[0].0@, json_view(variant@[0].1)));
                lemma_json_view(variant@[0].1);
            }
            match &variant[0].1 {
                Json::Object(fields) => {
                    let id = find_text(fields, "id");
                    if text::same(variant[0].0.as_str(), "Sequence") {
                        match id {
                            Some(id) => if text::same(id.as_str(), "A") {
                                Some(1)
                            } else if text::same(id.as_str(), "B") {
                                Some(2)
                            } else {
                                None
                            },
                            None => None,
                        }
                    } else if text::same(variant[0].0.as_str(), "SpecialToken") {
                        match id {
                            Some(id) => match find(tokens, id.as_str()) {
                                Some(_) => Some(0),
                                None => None,
                            },
                            None => None,
                        }
                    } else {
                        None
                    }
                },
                _ => None,
            }
        },
        _ => None,
    }
}

/// Whether no entry of a template needs more than so many sequences.
pub open spec fn pieces_suit(items: Seq<JsonView>, tokens: Members, count: nat) -> bool {
    forall|i: int|
        0 <= i < items.len() ==> (needed_sequences(#[trigger] items[i], tokens) matches Some(needed)
            && needed <= count)
}

/// How many sequences come out of a template that is given some: one for each entry. There is no
/// answer where it cannot be applied to so many.
pub open spec fn template_state(members: Members, count: nat) -> Option<nat> {
    let pieces = named(
        members,
        if count == 1 {
            "single"@
        } else {
            "pair"@
        },
    );
    let tokens = named(members, "special_tokens"@);
    if count != 1 && count != 2 || pieces < 0 || tokens < 0 {
        None
    } else {
        match (members[pieces].1, members[tokens].1) {
            (JsonView::List(items), JsonView::Object(known)) => if pieces_suit(items, known, count) {
                Some(items.len())
            } else {
                None
            },
            _ => None,
        }
    }
}

fn template(members: &Vec<(String, Json)>, count: usize) -> (state: Option<usize>)
    ensures
        match (state, template_state(member_views(members@), count as nat)) {
            (Some(state), Some(expected)) => state == expected,
            (None, None) => true,
            _ => false,
        },
{
    let name = if count == 1 {
        "single"
    } else {
        "pair"
    };
    let (pieces, tokens) = match (find(members, name), find(members, "special_tokens")) {
        (Some(pieces), Some(tokens)) => (pieces, tokens),
        _ => return None,
    };
    if count != 1 && count != 2 {
        return None;
    }
    proof {
        lemma_json_view(members@[pieces as int].1);
        lemma_json_view(members@[tokens as int].1);
    }
    match (&members[pieces].1, &members[tokens].1) {
        (Json::List(items), Json::Object(known)) => {
            if pieces_fit(items, known, count) {
                Some(items.len())
            } else {
                None
            }
        },
        _ => None,
    }
}

fn pieces_fit(items: &Vec<Json>, known: &Vec<(String, Json)>, count: usize) -> (fit: bool)
    ensures
        fit == pieces_suit(item_views(items@), member_views(known@), count as nat),
{
    let mut at: usize = 0;
    while at < items.len()
        invariant
            at <= items@.len(),
            forall|i: int|
                0 <= i < at ==> (needed_sequences(
                    #[trigger] item_views(items@)[i],
                    member_views(known@),
                ) matches Some(needed) && needed <= count),
        decreases items@.len() - at,
    {
        let fits = match sequences_needed(&items[at], known) {
            Some(needed) => needed <= count,
            None => false,
        };
        if !fits {
            assert(!(needed_sequences(item_views(items@)[at as int], member_views(known@)) matches Some(
                needed,
            ) && needed <= count));
            return false;
        }
        at = at + 1;
    }
    true
}

/// Whether an object has a member with a name.
pub open spec fn has_member(members: Members, name: Seq<char>) -> bool {
    named(members, name) >= 0
}

fn member_found(members: &Vec<(String, Json)>, name: &str) -> (b: bool)
    ensures
        b == has_member(member_views(members@), name@),
{
    find(members, name).is_some()
}

/// Whether an object has all members of a template.
pub open spec fn has_template(members: Members) -> bool {
    has_member(members, "single"@) && has_member(members, "pair"@) && has_member(
        members,
        "special_tokens"@,
    )
}

/// Whether an object has the two tokens that are put around a text.
pub open spec fn has_ends(members: Members) -> bool {
    has_member(members, "sep"@) && has_member(members, "cls"@)
}

/// What a post-processor is: one that leaves the count of sequences alone, a template, a list of
/// post-processors, or what cannot be told.
#[derive(Debug, Clone, Copy, PartialEq, Eq, Structural)]
pub enum ProcessorKind {
    Plain,
    Template,
    List,
    Unclear,
}

/// What a post-processor is. It is told by its members in this order: two tokens that are put around
/// a text, the type of one that spells bytes, a template, the type of a list. Where one of these may
/// fail and another take its place, what it is cannot be told.
pub open spec fn processor_kind(members: Members) -> ProcessorKind {
    if !is_plainly_typed(members) {
        ProcessorKind::Unclear
    } else if has_ends(members) || is_typed(members, "ByteLevel"@) {
        if has_template(members) || is_typed(members, "Sequence"@) {
            ProcessorKind::Unclear
        } else {
            ProcessorKind::Plain
        }
    } else if has_template(members) {
        if is_typed(members, "Sequence"@) {
            ProcessorKind::Unclear
        } else {
            ProcessorKind::Template
        }
    } else if is_typed(members, "Sequence"@) {
        ProcessorKind::List
    } else {
        ProcessorKind::Plain
    }
}

fn kind_of(members: &Vec<(String, Json)>) -> (kind: ProcessorKind)
    ensures
        kind == processor_kind(member_views(members@)),
{
    if !plainly_typed(members) {
        return ProcessorKind::Unclear;
    }
    let template = member_found(members, "single") && member_found(members, "pair") && member_found(
        members,
        "special_tokens",
    );
    let list = typed(members, "Sequence");
    let ends = member_found(members, "sep") && member_found(members, "cls");
    if ends || typed(members, "ByteLevel") {
        if template || list {
            ProcessorKind::Unclear
        } else {
            ProcessorKind::Plain
        }
    } else if template {
        if list {
            ProcessorKind::Unclear
        } else {
            ProcessorKind::Template
        }
    } else if list {
        ProcessorKind::List
    } else {
        ProcessorKind::Plain
    }
}

/// How many sequences come out of a post-processor that is given some. There is no answer where it
/// cannot be applied to so many, or where it cannot be told what it is.
pub open spec fn processor_state(json: JsonView, count: nat) -> Option<nat>
    decreases json, 0int,
{
    match json {
        JsonView::Null => Some(count),
        JsonView::Object(members) => match processor_kind(members) {
            ProcessorKind::Plain => Some(count),
            ProcessorKind::Template => template_state(members, count),
            ProcessorKind::List => {
                let at = named(members, "processors"@);
                if 0 <= at < members.len() {
                    match members[at].1 {
                        JsonView::List(items) => processors_state(items, 0, count),
                        _ => None,
                    }
                } else {
                    None
                }
            },
            ProcessorKind::Unclear => None,
        },
        _ => None,
    }
}

/// How many sequences come out of the post-processors from a position on.
pub open spec fn processors_state(items: Seq<JsonView>, at: int, count: nat) -> Option<nat>
    decreases items, items.len() - at,
{
    if at < 0 || at >= items.len() {
        Some(count)
    } else {
        match processor_state(items[at], count) {
            Some(count) => processors_state(items, at + 1, count),
            None => None,
        }
    }
}

fn processor(json: &Json, count: usize) -> (state: Option<usize>)
    ensures
        match (state, processor_state(json_view(*json), count as nat)) {
            (Some(state), Some(expected)) => state == expected,
            (None, None) => true,
            _ => false,
        },
    decreases json, 0int,
{
    proof {
        lemma_json_view(*json);
    }
    match json {
        Json::Null => Some(count),
        Json::Object(members) => match kind_of(members) {
            ProcessorKind::Plain => Some(count),
            ProcessorKind::Template => template(members, count),
            ProcessorKind::List => match find(members, "processors") {
                Some(at) => {
                    proof {
                        lemma_json_view(members@[at as int].1);
                    }
                    match &members[at].1 {
                        Json::List(items) => processors(items, count),
                        _ => None,
                    }
                },
                None => None,
            },
            ProcessorKind::Unclear => None,
        },
        _ => None,
    }
}

fn processors(items: &Vec<Json>, count: usize) -> (state: Option<usize>)
    ensures
        match (state, processors_state(item_views(items@), 0, count as nat)) {
            (Some(state), Some(expected)) => state == expected,
            (None, None) => true,
            _ => false,
        },
    decreases items, 1int,
{
    let mut state: usize = count;
    let mut at: usize = 0;
    while at < items.len()
        invariant
            at <= items@.len(),
            processors_state(item_views(items@), 0, count as nat) == processors_state(
                item_views(items@),
                at as int,
                state as nat,
            ),
        decreases items@.len() - at,
    {
        match processor(&items[at], state) {
            Some(next) => {
                state = next;
            },
            None => return None,
        }
        at = at + 1;
    }
    Some(state)
}

/// How many characters a number may have that surely stays finite.
pub const MAX_DIGITS: usize = 200;

/// Where the exponent of a number begins from a position on, or where the number ends.
pub open spec fn exponent_start(digits: Seq<char>, at: int) -> int
    decreases digits.len() - at,
{
    if 0 <= at < digits.len() && digits[at] != 'e' && digits[at] != 'E' {
        exponent_start(digits, at + 1)
    } else {
        at
    }
}

/// Whether a number surely stays finite: it is not long, and without an exponent, or with one that is
/// negative or has at most two digits.
pub open spec fn is_plain_number(digits: Seq<char>) -> bool {
    let at = exponent_start(digits, 0);
    digits.len() <= MAX_DIGITS && (at + 3 >= digits.len() || digits[at + 1] == '-' || (digits[at + 1]
        == '+' && at + 4 >= digits.len()))
}

fn plain_number(digits: &str) -> (plain: bool)
    ensures
        plain == is_plain_number(digits@),
{
    let chars = text::characters(digits);
    let length: usize = chars.len();
    if length > MAX_DIGITS {
        return false;
    }
    let mut at: usize = 0;
    while at < length && chars[at] != 'e' && chars[at] != 'E'
        invariant
            chars@ == digits@,
            length == chars@.len(),
            at <= length,
            exponent_start(digits@, 0) == exponent_start(digits@, at as int),
        decreases length - at,
    {
        at = at + 1;
    }
    length - at <= 3 || chars[at + 1] == '-' || (chars[at + 1] == '+' && length - at <= 4)
}

/// Whether all numbers in a value surely stay finite.
pub open spec fn has_plain_numbers(json: JsonView) -> bool
    decreases json, 0int,
{
    match json {
        JsonView::Number(digits) => is_plain_number(digits),
        JsonView::List(items) => are_plain_items(items),
        JsonView::Object(members) => are_plain_members(members),
        _ => true,
    }
}

/// Whether all numbers in some values surely stay finite.
pub open spec fn are_plain_items(items: Seq<JsonView>) -> bool
    decreases items, 1int,
{
    forall|i: int| 0 <= i < items.len() ==> has_plain_numbers(#[trigger] items[i])
}

/// Whether all numbers in some members surely stay finite.
pub open spec fn are_plain_members(members: Members) -> bool
    decreases members, 1int,
{
    forall|i: int| 0 <= i < members.len() ==> has_plain_numbers((#[trigger] members[i]).1)
}

fn plain_numbers(json: &Json) -> (plain: bool)
    ensures
        plain == has_plain_numbers(json_view(*json)),
    decreases json, 0int,
{
    proof {
        lemma_json_view(*json);
    }
    match json {
        Json::Number(digits) => plain_number(digits.as_str()),
        Json::List(items) => plain_items(items),
        Json::Object(members) => plain_members(members),
        _ => true,
    }
}

fn plain_items(items: &Vec<Json>) -> (plain: bool)
    ensures
        plain == are_plain_items(item_views(items@)),
    decreases items, 1int,
{
    let mut at: usize = 0;
    while at < items.len()
        invariant
            at <= items@.len(),
            forall|i: int| 0 <= i < at ==> has_plain_numbers(#[trigger] item_views(items@)[i]),
        decreases items@.len() - at,
    {
        if !plain_numbers(&items[at]) {
            assert(!has_plain_numbers(item_views(items@)[at as int]));
            return false;
        }
        at = at + 1;
    }
    true
}

fn plain_members(members: &Vec<(String, Json)>) -> (plain: bool)
    ensures
        plain == are_plain_members(member_views(members@)),
    decreases members, 1int,
{
    let mut at: usize = 0;
    while at < members.len()
        invariant
            at <= members@.len(),
            forall|i: int|
                0 <= i < at ==> has_plain_numbers((#[trigger] member_views(members@)[i]).1),
        decreases members@.len() - at,
    {
        if !plain_numbers(&members[at].1) {
            assert(!has_plain_numbers(member_views(members@)[at as int].1));
            return false;
        }
        at = at + 1;
    }
    true
}

/// Whether a part of a tokenizer can be loaded and worked with by itself.
pub open spec fn is_safe_part(name: Seq<char>, value: JsonView) -> bool {
    if name == "normalizer"@ {
        normalizer_state(value, false) is Some
    } else if name == "pre_tokenizer"@ {
        is_safe_splitter(value)
    } else if name == "post_processor"@ {
        processor_state(value, 1) is Some
    } else if name == "decoder"@ {
        has_plain_numbers(value)
    } else if name == "model"@ {
        is_closed_model(value)
    } else {
        true
    }
}

/// Whether a part of a tokenizer puts something before the text that it normalizes.
pub open spec fn puts_ahead(part: (Seq<char>, JsonView)) -> bool {
    part.0 == "normalizer"@ && normalizer_state(part.1, false) == Some(true)
}

/// Whether a part of a tokenizer changes every character that is left after normalizing.
pub open spec fn changes_all(part: (Seq<char>, JsonView)) -> bool {
    part.0 == "pre_tokenizer"@ && spells_bytes(part.1)
}

/// Whether the parts of a tokenizer can be loaded and worked with, each by itself, repeated ones too,
/// and all together: not every character is changed of a text with something put before it.
pub open spec fn are_safe_parts(parts: Members) -> bool {
    &&& forall|i: int| 0 <= i < parts.len() ==> is_safe_part((#[trigger] parts[i]).0, parts[i].1)
    &&& !((exists|i: int| 0 <= i < parts.len() && puts_ahead(#[trigger] parts[i])) && (exists|i: int|
        0 <= i < parts.len() && changes_all(#[trigger] parts[i])))
}

/// Whether a tokenizer file can be loaded and worked with: it is text that spells one object, whose
/// parts agree with each other.
pub open spec fn is_safe_tokenizer(file: Seq<u8>) -> bool {
    valid_utf8(file) && match spelled(decode_utf8(file)) {
        Some(JsonView::Object(parts)) => are_safe_parts(parts),
        _ => false,
    }
}

fn safe_part(name: &str, value: &Json) -> (safe: bool)
    ensures
        safe == is_safe_part(name@, json_view(*value)),
{
    if text::same(name, "normalizer") {
        normalizer(value, false).is_some()
    } else if text::same(name, "pre_tokenizer") {
        safe_splitter(value)
    } else if text::same(name, "post_processor") {
        processor(value, 1).is_some()
    } else if text::same(name, "decoder") {
        plain_numbers(value)
    } else if text::same(name, "model") {
        closed_model(value)
    } else {
        true
    }
}

fn safe_parts(parts: &Vec<(String, Json)>) -> (safe: bool)
    ensures
        safe == are_safe_parts(member_views(parts@)),
{
    let ghost views = member_views(parts@);
    let mut ahead = false;
    let mut changed = false;
    let mut at: usize = 0;
    while at < parts.len()
        invariant
            at <= parts@.len(),
            views == member_views(parts@),
            forall|i: int| 0 <= i < at ==> is_safe_part((#[trigger] views[i]).0, views[i].1),
            ahead == exists|i: int| 0 <= i < at && puts_ahead(#[trigger] views[i]),
            changed == exists|i: int| 0 <= i < at && changes_all(#[trigger] views[i]),
        decreases parts@.len() - at,
    {
        let name = parts[at].0.as_str();
        assert(views[at as int] == (name@, json_view(parts@[at as int].1)));
        if !safe_part(name, &parts[at].1) {
            return false;
        }
        if text::same(name, "normalizer") {
            if let Some(true) = normalizer(&parts[at].1, false) {
                assert(puts_ahead(views[at as int]));
                ahead = true;
            }
        }
        if text::same(name, "pre_tokenizer") && bytes_spelled(&parts[at].1) {
            assert(changes_all(views[at as int]));
            changed = true;
        }
        at = at + 1;
    }
    !(ahead && changed)
}

/// Tells whether a tokenizer file can be loaded and worked with.
pub fn tokenizer_safe(file: &[u8]) -> (safe: bool)
    ensures
        safe == is_safe_tokenizer(file@),
{
    match text::decode_slice(file) {
        Ok(content) => match parse(content.as_str()) {
            Some(value) => {
                proof {
                    lemma_json_view(value);
                }
                match &value {
                    Json::Object(parts) => safe_parts(parts),
                    _ => false,
                }
            },
            None => false,
        },
        Err(_) => false,
    }
}

} // verus!
