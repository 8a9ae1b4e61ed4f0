//! Whether the merge rules of a byte-pair model only join tokens of its vocabulary to others of it.

use vstd::hash_map::StringHashMap;
use vstd::prelude::*;
use vstd::slice::slice_subrange;
use vstd::string::*;

use crate::json::{item_views, json_view, lemma_json_view, member_views, Json, JsonView};
use crate::pattern::{find_next, next_of};
use crate::text;
use crate::tokenizer_file::{find, is_plainly_typed, is_typed, named, plainly_typed, typed, Members};

verus! {

/// Whether a token is in a vocabulary.
pub open spec fn is_known(vocabulary: Members, token: Seq<char>) -> bool {
    exists|i: int| 0 <= i < vocabulary.len() && #[trigger] vocabulary[i].0 == token
}

fn known_tokens(vocabulary: &Vec<(String, Json)>) -> (known: StringHashMap<bool>)
    ensures
        forall|token: Seq<char>| #[trigger]
            known@.contains_key(token) == is_known(member_views(vocabulary@), token),
{
    let mut known: StringHashMap<bool> = StringHashMap::with_capacity(vocabulary.len());
    let mut at: usize = 0;
    while at < vocabulary.len()
        invariant
            at <= vocabulary@.len(),
            forall|token: Seq<char>| #[trigger]
                known@.contains_key(token) <==> exists|i: int|
                    0 <= i < at && #[trigger] member_views(vocabulary@)[i].0 == token,
        decreases vocabulary@.len() - at,
    {
        let ghost before = known@;
        let token = vocabulary[at].0.as_str().to_owned();
        let ghost added = token@;
        known.insert(token, true);
        assert forall|token: Seq<char>| #[trigger] known@.contains_key(token) <==> exists|i: int|
            0 <= i < at + 1 && #[trigger] member_views(vocabulary@)[i].0 == token by {
            assert(member_views(vocabulary@)[at as int].0 == added);
            assert(known@.contains_key(token) <==> before.contains_key(token) || token == added);
            if exists|i: int| 0 <= i < at && #[trigger] member_views(vocabulary@)[i].0 == token {
                let i = choose|i: int|
                    0 <= i < at && #[trigger] member_views(vocabulary@)[i].0 == token;
                assert(before.contains_key(token));
            }
        }
        at = at + 1;
    }
    known
}

/// Whether two tokens are joined, without the prefix of the second, to a token of the vocabulary.
pub open spec fn is_joined(
    left: Seq<char>,
    right: Seq<char>,
    prefix: Seq<char>,
    vocabulary: Members,
) -> bool {
    is_known(vocabulary, left) && is_known(vocabulary, right) && text::begins_with(right, prefix)
        && is_known(vocabulary, left + right.skip(prefix.len() as int))
}

fn joined(
    left: &str,
    right: &str,
    prefix: &str,
    known: &StringHashMap<bool>,
    Ghost(vocabulary): Ghost<Members>,
) -> (b: bool)
    requires
        forall|token: Seq<char>| #[trigger]
            known@.contains_key(token) == is_known(vocabulary, token),
    ensures
        b == is_joined(left@, right@, prefix@, vocabulary),
{
    if !known.contains_key(left) || !known.contains_key(right) {
        return false;
    }
    match text::strip_prefix(right, prefix) {
        Some(rest) => known.contains_key(text::join(left, rest.as_str()).as_str()),
        None => false,
    }
}

/// Whether a rule, written as a pair, joins tokens to a token of the vocabulary.
pub open spec fn is_pair_rule(rule: JsonView, prefix: Seq<char>, vocabulary: Members) -> bool {
    match rule {
        JsonView::List(pair) => if pair.len() == 2 {
            match (pair[0], pair[1]) {
                (JsonView::Text(left), JsonView::Text(right)) => is_joined(
                    left,
                    right,
                    prefix,
                    vocabulary,
                ),
                _ => false,
            }
        } else {
            false
        },
        _ => false,
    }
}

/// Whether a rule, written as two tokens with a space between them, joins tokens to a token of the
/// vocabulary. A line that states a version is no rule.
pub open spec fn is_line_rule(rule: JsonView, prefix: Seq<char>, vocabulary: Members) -> bool {
    match rule {
        JsonView::Text(line) => text::begins_with(line, "#version"@) || match next_of(line, 0, ' ') {
            Some(space) => next_of(line, space + 1, ' ') is None && is_joined(
                line.take(space),
                line.skip(space + 1),
                prefix,
                vocabulary,
            ),
            None => false,
        },
        _ => false,
    }
}

/// Whether rules, all written in one way, only join tokens of a vocabulary to others of it.
pub open spec fn are_closed_rules(
    rules: Seq<JsonView>,
    prefix: Seq<char>,
    vocabulary: Members,
) -> bool {
    ||| forall|i: int| 0 <= i < rules.len() ==> is_pair_rule(#[trigger] rules[i], prefix, vocabulary)
    ||| forall|i: int| 0 <= i < rules.len() ==> is_line_rule(#[trigger] rules[i], prefix, vocabulary)
}

fn pair_rule(
    rule: &Json,
    prefix: &str,
    known: &StringHashMap<bool>,
    Ghost(vocabulary): Ghost<Members>,
) -> (b: bool)
    requires
        forall|token: Seq<char>| #[trigger]
            known@.contains_key(token) == is_known(vocabulary, token),
    ensures
        b == is_pair_rule(json_view(*rule), prefix@, vocabulary),
{
    proof {
        lemma_json_view(*rule);
    }
    match rule {
        Json::List(pair) => {
            if pair.len() != 2 {
                return false;
            }
            assert(item_views(pair@)[0] == json_view(pair@[0]));
            assert(item_views(pair@)[1] == json_view(pair@[1]));
            match (&pair[0], &pair[1]) {
                (Json::Text(left), Json::Text(right)) => joined(
                    left.as_str(),
                    right.as_str(),
                    prefix,
                    known,
                    Ghost(vocabulary),
                ),
                _ => false,
            }
        },
        _ => false,
    }
}

fn line_rule(
    rule: &Json,
    prefix: &str,
    known: &StringHashMap<bool>,
    Ghost(vocabulary): Ghost<Members>,
) -> (b: bool)
    requires
        forall|token: Seq<char>| #[trigger]
            known@.contains_key(token) == is_known(vocabulary, token),
    ensures
        b == is_line_rule(json_view(*rule), prefix@, vocabulary),
{
    match rule {
        Json::Text(line) => {
            if text::starts_with(line.as_str(), "#version") {
                return true;
            }
            let chars = text::characters(line.as_str());
            match find_next(&chars, 0, ' ') {
                Some(space) => {
                    if find_next(&chars, space + 1, ' ').is_some() {
                        return false;
                    }
                    let left = slice_subrange(chars.as_slice(), 0, space);
                    let right = slice_subrange(chars.as_slice(), space + 1, chars.len());
                    assert(left@ =~= line@.take(space as int));
                    assert(right@ =~= line@.skip(space + 1));
                    joined(
                        text::from_characters(left).as_str(),
                        text::from_characters(right).as_str(),
                        prefix,
                        known,
                        Ghost(vocabulary),
                    )
                },
                None => false,
            }
        },
        _ => false,
    }
}

fn closed_rules(rules: &Vec<Json>, prefix: &str, vocabulary: &Vec<(String, Json)>) -> (closed: bool)
    ensures
        closed == are_closed_rules(item_views(rules@), prefix@, member_views(vocabulary@)),
{
    let known = known_tokens(vocabulary);
    let ghost tokens = member_views(vocabulary@);
    let mut pairs = true;
    let mut lines = true;
    let mut at: usize = 0;
    while at < rules.len() && (pairs || lines)
        invariant
            at <= rules@.len(),
            forall|token: Seq<char>| #[trigger]
                known@.contains_key(token) == is_known(tokens, token),
            pairs == forall|i: int|
                0 <= i < at ==> is_pair_rule(#[trigger] item_views(rules@)[i], prefix@, tokens),
            lines == forall|i: int|
                0 <= i < at ==> is_line_rule(#[trigger] item_views(rules@)[i], prefix@, tokens),
        decreases rules@.len() - at,
    {
        assert(item_views(rules@)[at as int] == json_view(rules@[at as int]));
        pairs = pairs && pair_rule(&rules[at], prefix, &known, Ghost(tokens));
        lines = lines && line_rule(&rules[at], prefix, &known, Ghost(tokens));
        at = at + 1;
    }
    pairs || lines
}

/// The prefix that an object gives to the tokens which go on with a word; without one it is empty.
pub open spec fn given_prefix(members: Members) -> Option<Seq<char>> {
    let at = named(members, "continuing_subword_prefix"@);
    if 0 <= at < members.len() {
        match members[at].1 {
            JsonView::Text(prefix) => Some(prefix),
            JsonView::Null => Some(""@),
            _ => None,
        }
    } else {
        Some(""@)
    }
}

fn find_prefix<'a>(members: &'a Vec<(String, Json)>) -> (prefix: Option<&'a str>)
    ensures
        match (prefix, given_prefix(member_views(members@))) {
            (Some(prefix), Some(expected)) => prefix@ == expected,
            (None, None) => true,
            _ => false,
        },
{
    match find(members, "continuing_subword_prefix") {
        Some(at) => match &members[at].1 {
            Json::Text(prefix) => Some(prefix.as_str()),
            Json::Null => Some(""),
            _ => None,
        },
        None => Some(""),
    }
}

/// Whether an object is a model that has no merge rules.
pub open spec fn is_without_rules(members: Members) -> bool {
    is_plainly_typed(members) && (is_typed(members, "WordPiece"@) || is_typed(members, "WordLevel"@)
        || is_typed(members, "Unigram"@))
}

/// Whether the merge rules of a model, if it has any, only join tokens of its vocabulary to others of
/// it.
pub open spec fn is_closed_model(json: JsonView) -> bool {
    match json {
        JsonView::Object(members) => {
            let vocabulary = named(members, "vocab"@);
            let rules = named(members, "merges"@);
            if is_without_rules(members) || vocabulary < 0 || rules < 0 {
                true
            } else {
                match (members[vocabulary].1, members[rules].1) {
                    (JsonView::Object(vocabulary), JsonView::List(rules)) => match given_prefix(
                        members,
                    ) {
                        Some(prefix) => are_closed_rules(rules, prefix, vocabulary),
                        None => false,
                    },
                    _ => true,
                }
            }
        },
        _ => true,
    }
}

/// Tells whether the merge rules of a model, if it has any, only join tokens of its vocabulary to
/// others of it.
pub fn closed_model(json: &Json) -> (closed: bool)
    ensures
        closed == is_closed_model(json_view(*json)),
{
    proof {
        lemma_json_view(*json);
    }
    match json {
        Json::Object(members) => {
            if plainly_typed(members) && (typed(members, "WordPiece") || typed(members, "WordLevel")
                || typed(members, "Unigram")) {
                return true;
            }
            let (vocabulary, rules) = match (find(members, "vocab"), find(members, "merges")) {
                (Some(vocabulary), Some(rules)) => (vocabulary, rules),
                _ => return true,
            };
            proof {
                lemma_json_view(members@[vocabulary as int].1);
                lemma_json_view(members@[rules as int].1);
            }
            match (&members[vocabulary].1, &members[rules].1) {
                (Json::Object(vocabulary), Json::List(rules)) => match find_prefix(members) {
                    Some(prefix) => closed_rules(rules, prefix, vocabulary),
                    None => false,
                },
                _ => true,
            }
        },
        _ => true,
    }
}

} // verus!
