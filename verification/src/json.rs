//! Reading JSON with every member that is written, repeated ones too.

use vstd::prelude::*;
use vstd::string::*;

use crate::text;

verus! {

/// How deep lists and objects may nest.
pub const MAX_NESTING: usize = 127;

/// A JSON value; a number is kept as it is written.
pub enum Json {
    Null,
    Bool(bool),
    Number(String),
    Text(String),
    List(Vec<Json>),
    Object(Vec<(String, Json)>),
}

/// The value of a [`Json`].
pub enum JsonView {
    Null,
    Bool(bool),
    Number(Seq<char>),
    Text(Seq<char>),
    List(Seq<JsonView>),
    Object(Seq<(Seq<char>, JsonView)>),
}

/// The value of a [`Json`].
pub open spec fn json_view(json: Json) -> JsonView
    decreases json,
{
    match json {
        Json::Null => JsonView::Null,
        Json::Bool(value) => JsonView::Bool(value),
        Json::Number(digits) => JsonView::Number(digits@),
        Json::Text(value) => JsonView::Text(value@),
        Json::List(items) => JsonView::List(
            Seq::new(
                items@.len(),
                |i: int|
                    if 0 <= i < items@.len() {
                        json_view(items@[i])
                    } else {
                        JsonView::Null
                    },
            ),
        ),
        Json::Object(members) => JsonView::Object(
            Seq::new(
                members@.len(),
                |i: int|
                    if 0 <= i < members@.len() {
                        (members@[i].0@, json_view(members@[i].1))
                    } else {
                        (Seq::empty(), JsonView::Null)
                    },
            ),
        ),
    }
}

/// The values of JSON values.
pub open spec fn item_views(items: Seq<Json>) -> Seq<JsonView> {
    Seq::new(items.len(), |i: int| json_view(items[i]))
}

/// The values of an object's members.
pub open spec fn member_views(members: Seq<(String, Json)>) -> Seq<(Seq<char>, JsonView)> {
    Seq::new(members.len(), |i: int| (members[i].0@, json_view(members[i].1)))
}

/// The value of a list is that of its items, and the value of an object that of its members.
pub proof fn lemma_json_view(json: Json)
    ensures
        json matches Json::List(items) ==> json_view(json) == JsonView::List(item_views(items@)),
        json matches Json::Object(members) ==> json_view(json) == JsonView::Object(
            member_views(members@),
        ),
{
    match json {
        Json::List(items) => {
            if let JsonView::List(views) = json_view(json) {
                assert(views =~= item_views(items@));
            }
        },
        Json::Object(members) => {
            if let JsonView::Object(views) = json_view(json) {
                assert(views =~= member_views(members@));
            }
        },
        _ => {},
    }
}

/// Whether a character may stand between the parts of a value.
pub open spec fn is_space(c: char) -> bool {
    c == ' ' || c == '\n' || c == '\t' || c == '\r'
}

/// Where the white space ends that begins at a position.
pub open spec fn space_end(t: Seq<char>, at: int) -> int
    decreases t.len() - at,
{
    if at < t.len() && is_space(t[at]) {
        space_end(t, at + 1)
    } else {
        at
    }
}

proof fn lemma_space_end(t: Seq<char>, at: int)
    ensures
        space_end(t, at) >= at,
        at <= t.len() ==> space_end(t, at) <= t.len(),
    decreases t.len() - at,
{
    if at < t.len() && is_space(t[at]) {
        lemma_space_end(t, at + 1);
    }
}

fn skip_space(t: &Vec<char>, at: usize) -> (end: usize)
    requires
        at <= t@.len(),
    ensures
        end == space_end(t@, at as int),
        at <= end <= t@.len(),
{
    let mut end: usize = at;
    while end < t.len() && (t[end] == ' ' || t[end] == '\n' || t[end] == '\t' || t[end] == '\r')
        invariant
            at <= end <= t@.len(),
            space_end(t@, at as int) == space_end(t@, end as int),
        decreases t@.len() - end,
    {
        end = end + 1;
    }
    end
}

/// Where the decimal digits end that begin at a position.
pub open spec fn digits_end(t: Seq<char>, at: int) -> int
    decreases t.len() - at,
{
    if at < t.len() && '0' <= t[at] <= '9' {
        digits_end(t, at + 1)
    } else {
        at
    }
}

fn skip_digits(t: &Vec<char>, at: usize) -> (end: usize)
    requires
        at <= t@.len(),
    ensures
        end == digits_end(t@, at as int),
        at <= end <= t@.len(),
{
    let mut end: usize = at;
    while end < t.len() && '0' <= t[end] && t[end] <= '9'
        invariant
            at <= end <= t@.len(),
            digits_end(t@, at as int) == digits_end(t@, end as int),
        decreases t@.len() - end,
    {
        end = end + 1;
    }
    end
}

/// Where the fraction of a number ends, whose whole digits end at a position.
pub open spec fn fraction_end(t: Seq<char>, at: int) -> Option<int> {
    if at < t.len() && t[at] == '.' {
        let end = digits_end(t, at + 1);
        if end == at + 1 {
            None
        } else {
            Some(end)
        }
    } else {
        Some(at)
    }
}

/// Where the exponent of a number ends, whose fraction ends at a position.
pub open spec fn exponent_end(t: Seq<char>, at: int) -> Option<int> {
    if at < t.len() && (t[at] == 'e' || t[at] == 'E') {
        let start = if at + 1 < t.len() && (t[at + 1] == '+' || t[at + 1] == '-') {
            at + 2
        } else {
            at + 1
        };
        let end = digits_end(t, start);
        if end == start {
            None
        } else {
            Some(end)
        }
    } else {
        Some(at)
    }
}

/// Where the number ends that begins at a position, if one does.
pub open spec fn number_end(t: Seq<char>, at: int) -> Option<int> {
    let start = if at < t.len() && t[at] == '-' {
        at + 1
    } else {
        at
    };
    let whole = digits_end(t, start);
    if whole == start || (t[start] == '0' && whole > start + 1) {
        None
    } else {
        match fraction_end(t, whole) {
            Some(fraction) => exponent_end(t, fraction),
            None => None,
        }
    }
}

fn skip_number(t: &Vec<char>, at: usize) -> (end: Option<usize>)
    requires
        at <= t@.len(),
    ensures
        match (end, number_end(t@, at as int)) {
            (Some(end), Some(expected)) => end == expected && at < end <= t@.len(),
            (None, None) => true,
            _ => false,
        },
{
    let start: usize = if at < t.len() && t[at] == '-' {
        at + 1
    } else {
        at
    };
    let whole: usize = skip_digits(t, start);
    if whole == start || (t[start] == '0' && whole > start + 1) {
        return None;
    }
    let fraction: usize = if whole < t.len() && t[whole] == '.' {
        let end: usize = skip_digits(t, whole + 1);
        if end == whole + 1 {
            return None;
        }
        end
    } else {
        whole
    };
    if fraction < t.len() && (t[fraction] == 'e' || t[fraction] == 'E') {
        let digits: usize = if fraction + 1 < t.len() && (t[fraction + 1] == '+' || t[fraction + 1]
            == '-') {
            fraction + 2
        } else {
            fraction + 1
        };
        let end: usize = skip_digits(t, digits);
        if end == digits {
            return None;
        }
        Some(end)
    } else {
        Some(fraction)
    }
}

/// The number of a hexadecimal digit.
pub open spec fn hex_digit(c: char) -> Option<u32> {
    if '0' <= c <= '9' {
        Some((c as u32 - 48) as u32)
    } else if 'a' <= c <= 'f' {
        Some((c as u32 - 87) as u32)
    } else if 'A' <= c <= 'F' {
        Some((c as u32 - 55) as u32)
    } else {
        None
    }
}

fn hex_number(c: char) -> (digit: Option<u32>)
    ensures
        digit == hex_digit(c),
        digit matches Some(value) ==> value < 16,
{
    if '0' <= c && c <= '9' {
        Some(c as u32 - 48)
    } else if 'a' <= c && c <= 'f' {
        Some(c as u32 - 87)
    } else if 'A' <= c && c <= 'F' {
        Some(c as u32 - 55)
    } else {
        None
    }
}

/// The number that four hexadecimal digits at a position spell.
pub open spec fn hex_unit(t: Seq<char>, at: int) -> Option<u32> {
    if at + 4 > t.len() {
        None
    } else {
        match (
            hex_digit(t[at]),
            hex_digit(t[at + 1]),
            hex_digit(t[at + 2]),
            hex_digit(t[at + 3]),
        ) {
            (Some(a), Some(b), Some(c), Some(d)) => Some(
                (4096 * a + 256 * b + 16 * c + d) as u32,
            ),
            _ => None,
        }
    }
}

fn read_hex(t: &Vec<char>, at: usize) -> (unit: Option<u32>)
    requires
        at <= t@.len(),
    ensures
        unit == hex_unit(t@, at as int),
        unit matches Some(value) ==> value < 65536 && at + 4 <= t@.len(),
{
    if t.len() - at < 4 {
        return None;
    }
    match (hex_number(t[at]), hex_number(t[at + 1]), hex_number(t[at + 2]), hex_number(t[at + 3])) {
        (Some(a), Some(b), Some(c), Some(d)) => Some(4096 * a + 256 * b + 16 * c + d),
        _ => None,
    }
}

/// `char::from_u32`: the character of a code, and none where the code is a surrogate or above the
/// last character's.
#[verifier::external_body]
fn character(code: u32) -> (c: Option<char>)
    ensures
        c is Some == (code < 0xd800 || 0xdfff < code <= 0x10ffff),
        c matches Some(c) ==> c == code as char && c as u32 == code,
{
    char::from_u32(code)
}

/// The character that an escape stands for, whose first character after the backslash is at a
/// position, and where the escape ends. A pair of surrogates stands for one character.
pub open spec fn escape_at(t: Seq<char>, at: int) -> Option<(char, int)> {
    if at >= t.len() {
        None
    } else {
        let c = t[at];
        if c == '"' || c == '\\' || c == '/' {
            Some((c, at + 1))
        } else if c == 'b' {
            Some(('\u{8}', at + 1))
        } else if c == 'f' {
            Some(('\u{c}', at + 1))
        } else if c == 'n' {
            Some(('\n', at + 1))
        } else if c == 'r' {
            Some(('\r', at + 1))
        } else if c == 't' {
            Some(('\t', at + 1))
        } else if c == 'u' {
            match hex_unit(t, at + 1) {
                None => None,
                Some(unit) => if unit < 0xd800 || unit > 0xdfff {
                    Some((unit as char, at + 5))
                } else if unit > 0xdbff || at + 7 > t.len() || t[at + 5] != '\\' || t[at + 6] != 'u' {
                    None
                } else {
                    match hex_unit(t, at + 7) {
                        Some(low) => if 0xdc00 <= low <= 0xdfff {
                            Some(
                                (
                                    (0x10000 + 1024 * (unit - 0xd800) + (low
                                        - 0xdc00)) as u32 as char,
                                    at + 11,
                                ),
                            )
                        } else {
                            None
                        },
                        None => None,
                    }
                },
            }
        } else {
            None
        }
    }
}

fn read_escape(t: &Vec<char>, at: usize) -> (escape: Option<(char, usize)>)
    requires
        at <= t@.len(),
    ensures
        match (escape, escape_at(t@, at as int)) {
            (Some((c, end)), Some(expected)) => c == expected.0 && end == expected.1 && at < end
                <= t@.len(),
            (None, None) => true,
            _ => false,
        },
{
    if at >= t.len() {
        return None;
    }
    let c = t[at];
    if c == '"' || c == '\\' || c == '/' {
        Some((c, at + 1))
    } else if c == 'b' {
        Some(('\u{8}', at + 1))
    } else if c == 'f' {
        Some(('\u{c}', at + 1))
    } else if c == 'n' {
        Some(('\n', at + 1))
    } else if c == 'r' {
        Some(('\r', at + 1))
    } else if c == 't' {
        Some(('\t', at + 1))
    } else if c == 'u' {
        let unit: u32 = match read_hex(t, at + 1) {
            Some(unit) => unit,
            None => return None,
        };
        if unit < 0xd800 || unit > 0xdfff {
            return match character(unit) {
                Some(c) => Some((c, at + 5)),
                None => None,
            };
        }
        if unit > 0xdbff || t.len() - at < 7 || t[at + 5] != '\\' || t[at + 6] != 'u' {
            return None;
        }
        match read_hex(t, at + 7) {
            Some(low) => if 0xdc00 <= low && low <= 0xdfff {
                match character(0x10000 + 1024 * (unit - 0xd800) + (low - 0xdc00)) {
                    Some(c) => Some((c, at + 11)),
                    None => None,
                }
            } else {
                None
            },
            None => None,
        }
    } else {
        None
    }
}

/// The text whose characters go on at a position, after those gathered before, and where its closing
/// quotation mark ends.
pub open spec fn text_at(t: Seq<char>, at: int, gathered: Seq<char>) -> Option<(Seq<char>, int)>
    decreases t.len() - at,
{
    if at >= t.len() || ' ' > t[at] {
        None
    } else if t[at] == '"' {
        Some((gathered, at + 1))
    } else if t[at] == '\\' {
        match escape_at(t, at + 1) {
            Some((c, end)) => if at < end <= t.len() {
                text_at(t, end, gathered.push(c))
            } else {
                None
            },
            None => None,
        }
    } else {
        text_at(t, at + 1, gathered.push(t[at]))
    }
}

fn read_text(t: &Vec<char>, at: usize) -> (read: Option<(String, usize)>)
    requires
        at <= t@.len(),
    ensures
        match (read, text_at(t@, at as int, Seq::empty())) {
            (Some((value, end)), Some(expected)) => value@ == expected.0 && end == expected.1 && at
                < end <= t@.len(),
            (None, None) => true,
            _ => false,
        },
{
    let mut value = String::new();
    let mut end: usize = at;
    assert(value@ =~= Seq::<char>::empty());
    while end < t.len()
        invariant
            at <= end <= t@.len(),
            text_at(t@, at as int, Seq::empty()) == text_at(t@, end as int, value@),
        decreases t@.len() - end,
    {
        let c = t[end];
        if ' ' > c {
            return None;
        }
        if c == '"' {
            return Some((value, end + 1));
        }
        if c == '\\' {
            match read_escape(t, end + 1) {
                Some((c, next)) => {
                    value.push(c);
                    end = next;
                },
                None => return None,
            }
        } else {
            value.push(c);
            end = end + 1;
        }
    }
    None
}

/// Whether a word stands at a position.
pub open spec fn word_at(t: Seq<char>, at: int, word: Seq<char>) -> bool {
    at + word.len() <= t.len() && t.subrange(at, at + word.len()) == word
}

fn has_word(t: &Vec<char>, at: usize, word: &str) -> (found: bool)
    requires
        at <= t@.len(),
    ensures
        found == word_at(t@, at as int, word@),
{
    let expected = text::characters(word);
    t.len() - at >= expected.len() && text::stands_at(t, at, &expected)
}

/// The value that begins at a position, below `depth` lists and objects, and where it ends.
pub open spec fn value_at(t: Seq<char>, at: int, depth: int) -> Option<(JsonView, int)>
    decreases t.len() - at, 0int,
{
    if at < 0 || at >= t.len() {
        None
    } else if t[at] == '"' {
        match text_at(t, at + 1, Seq::empty()) {
            Some((value, end)) => Some((JsonView::Text(value), end)),
            None => None,
        }
    } else if t[at] == '[' {
        let first = space_end(t, at + 1);
        if depth >= MAX_NESTING {
            None
        } else if first < t.len() && t[first] == ']' {
            Some((JsonView::List(Seq::empty()), first + 1))
        } else {
            match items_at(t, at + 1, depth + 1, Seq::empty()) {
                Some((items, end)) => Some((JsonView::List(items), end)),
                None => None,
            }
        }
    } else if t[at] == '{' {
        let first = space_end(t, at + 1);
        if depth >= MAX_NESTING {
            None
        } else if first < t.len() && t[first] == '}' {
            Some((JsonView::Object(Seq::empty()), first + 1))
        } else {
            match members_at(t, at + 1, depth + 1, Seq::empty()) {
                Some((members, end)) => Some((JsonView::Object(members), end)),
                None => None,
            }
        }
    } else if word_at(t, at, "null"@) {
        Some((JsonView::Null, at + 4))
    } else if word_at(t, at, "true"@) {
        Some((JsonView::Bool(true), at + 4))
    } else if word_at(t, at, "false"@) {
        Some((JsonView::Bool(false), at + 5))
    } else {
        match number_end(t, at) {
            Some(end) => Some((JsonView::Number(t.subrange(at, end)), end)),
            None => None,
        }
    }
}

/// The items of a list that go on at a position, after those gathered before, and where the list
/// ends.
pub open spec fn items_at(t: Seq<char>, at: int, depth: int, gathered: Seq<JsonView>) -> Option<
    (Seq<JsonView>, int),
>
    decreases t.len() - at, 1int,
{
    let start = space_end(t, at);
    if start < at || start >= t.len() {
        None
    } else {
        match value_at(t, start, depth) {
            Some((item, end)) => {
                let stop = space_end(t, end);
                if stop < at || stop >= t.len() {
                    None
                } else if t[stop] == ',' {
                    items_at(t, stop + 1, depth, gathered.push(item))
                } else if t[stop] == ']' {
                    Some((gathered.push(item), stop + 1))
                } else {
                    None
                }
            },
            None => None,
        }
    }
}

/// The name of a member that begins at a position, and where its value begins.
pub open spec fn name_at(t: Seq<char>, at: int) -> Option<(Seq<char>, int)> {
    let start = space_end(t, at);
    if start >= t.len() || t[start] != '"' {
        None
    } else {
        match text_at(t, start + 1, Seq::empty()) {
            Some((name, end)) => {
                let colon = space_end(t, end);
                if colon >= t.len() || t[colon] != ':' {
                    None
                } else {
                    Some((name, space_end(t, colon + 1)))
                }
            },
            None => None,
        }
    }
}

/// The members of an object that go on at a position, after those gathered before, and where the
/// object ends.
pub open spec fn members_at(
    t: Seq<char>,
    at: int,
    depth: int,
    gathered: Seq<(Seq<char>, JsonView)>,
) -> Option<(Seq<(Seq<char>, JsonView)>, int)>
    decreases t.len() - at, 1int,
{
    match name_at(t, at) {
        Some((name, start)) => if start < at || start >= t.len() {
            None
        } else {
            match value_at(t, start, depth) {
                Some((value, end)) => {
                    let stop = space_end(t, end);
                    if stop < at || stop >= t.len() {
                        None
                    } else if t[stop] == ',' {
                        members_at(t, stop + 1, depth, gathered.push((name, value)))
                    } else if t[stop] == '}' {
                        Some((gathered.push((name, value)), stop + 1))
                    } else {
                        None
                    }
                },
                None => None,
            }
        },
        None => None,
    }
}

fn read_name(t: &Vec<char>, at: usize) -> (read: Option<(String, usize)>)
    requires
        at <= t@.len(),
    ensures
        match (read, name_at(t@, at as int)) {
            (Some((name, start)), Some(expected)) => name@ == expected.0 && start == expected.1 && at
                <= start <= t@.len(),
            (None, None) => true,
            _ => false,
        },
{
    let start: usize = skip_space(t, at);
    if start >= t.len() || t[start] != '"' {
        return None;
    }
    match read_text(t, start + 1) {
        Some((name, end)) => {
            let colon: usize = skip_space(t, end);
            if colon >= t.len() || t[colon] != ':' {
                None
            } else {
                Some((name, skip_space(t, colon + 1)))
            }
        },
        None => None,
    }
}

fn read_value(t: &Vec<char>, at: usize, depth: usize) -> (read: Option<(Json, usize)>)
    requires
        at <= t@.len(),
    ensures
        match (read, value_at(t@, at as int, depth as int)) {
            (Some((value, end)), Some(expected)) => json_view(value) == expected.0 && end
                == expected.1 && at < end <= t@.len(),
            (None, None) => true,
            _ => false,
        },
    decreases t@.len() - at, 0int,
{
    if at >= t.len() {
        return None;
    }
    if t[at] == '"' {
        return match read_text(t, at + 1) {
            Some((value, end)) => Some((Json::Text(value), end)),
            None => None,
        };
    }
    if t[at] == '[' {
        let first: usize = skip_space(t, at + 1);
        if depth >= MAX_NESTING {
            return None;
        }
        if first < t.len() && t[first] == ']' {
            let value = Json::List(Vec::new());
            proof {
                lemma_json_view(value);
                assert(item_views(value->List_0@) =~= Seq::<JsonView>::empty());
            }
            return Some((value, first + 1));
        }
        return match read_items(t, at + 1, depth + 1) {
            Some((items, end)) => {
                let value = Json::List(items);
                proof {
                    lemma_json_view(value);
                }
                Some((value, end))
            },
            None => None,
        };
    }
    if t[at] == '{' {
        let first: usize = skip_space(t, at + 1);
        if depth >= MAX_NESTING {
            return None;
        }
        if first < t.len() && t[first] == '}' {
            let value = Json::Object(Vec::new());
            proof {
                lemma_json_view(value);
                assert(member_views(value->Object_0@) =~= Seq::<(Seq<char>, JsonView)>::empty());
            }
            return Some((value, first + 1));
        }
        return match read_members(t, at + 1, depth + 1) {
            Some((members, end)) => {
                let value = Json::Object(members);
                proof {
                    lemma_json_view(value);
                }
                Some((value, end))
            },
            None => None,
        };
    }
    proof {
        reveal_strlit("null");
        reveal_strlit("true");
        reveal_strlit("false");
    }
    if has_word(t, at, "null") {
        Some((Json::Null, at + 4))
    } else if has_word(t, at, "true") {
        Some((Json::Bool(true), at + 4))
    } else if has_word(t, at, "false") {
        Some((Json::Bool(false), at + 5))
    } else {
        match skip_number(t, at) {
            Some(end) => {
                let digits = text::from_characters(vstd::slice::slice_subrange(t.as_slice(), at, end));
                Some((Json::Number(digits), end))
            },
            None => None,
        }
    }
}

fn read_items(t: &Vec<char>, at: usize, depth: usize) -> (read: Option<(Vec<Json>, usize)>)
    requires
        at <= t@.len(),
    ensures
        match (read, items_at(t@, at as int, depth as int, Seq::empty())) {
            (Some((items, end)), Some(expected)) => item_views(items@) == expected.0 && end
                == expected.1 && at < end <= t@.len(),
            (None, None) => true,
            _ => false,
        },
    decreases t@.len() - at, 1int,
{
    let mut items: Vec<Json> = Vec::new();
    let mut next: usize = at;
    assert(item_views(items@) =~= Seq::<JsonView>::empty());
    while next < t.len()
        invariant
            at <= next <= t@.len(),
            items_at(t@, at as int, depth as int, Seq::empty()) == items_at(
                t@,
                next as int,
                depth as int,
                item_views(items@),
            ),
        decreases t@.len() - next,
    {
        let start: usize = skip_space(t, next);
        if start >= t.len() {
            return None;
        }
        match read_value(t, start, depth) {
            Some((item, end)) => {
                let stop: usize = skip_space(t, end);
                if stop >= t.len() {
                    return None;
                }
                let ghost gathered = items@;
                items.push(item);
                assert(item_views(items@) =~= item_views(gathered).push(json_view(item)));
                if t[stop] == ']' {
                    return Some((items, stop + 1));
                }
                if t[stop] != ',' {
                    return None;
                }
                next = stop + 1;
            },
            None => return None,
        }
    }
    None
}

fn read_members(t: &Vec<char>, at: usize, depth: usize) -> (read: Option<
    (Vec<(String, Json)>, usize),
>)
    requires
        at <= t@.len(),
    ensures
        match (read, members_at(t@, at as int, depth as int, Seq::empty())) {
            (Some((members, end)), Some(expected)) => member_views(members@) == expected.0 && end
                == expected.1 && at < end <= t@.len(),
            (None, None) => true,
            _ => false,
        },
    decreases t@.len() - at, 1int,
{
    let mut members: Vec<(String, Json)> = Vec::new();
    let mut next: usize = at;
    assert(member_views(members@) =~= Seq::<(Seq<char>, JsonView)>::empty());
    while next < t.len()
        invariant
            at <= next <= t@.len(),
            members_at(t@, at as int, depth as int, Seq::empty()) == members_at(
                t@,
                next as int,
                depth as int,
                member_views(members@),
            ),
        decreases t@.len() - next,
    {
        let (name, start) = match read_name(t, next) {
            Some(read) => read,
            None => return None,
        };
        if start >= t.len() {
            return None;
        }
        match read_value(t, start, depth) {
            Some((value, end)) => {
                let stop: usize = skip_space(t, end);
                if stop >= t.len() {
                    return None;
                }
                let ghost gathered = members@;
                let ghost member = (name@, json_view(value));
                members.push((name, value));
                assert(member_views(members@) =~= member_views(gathered).push(member));
                if t[stop] == '}' {
                    return Some((members, stop + 1));
                }
                if t[stop] != ',' {
                    return None;
                }
                next = stop + 1;
            },
            None => return None,
        }
    }
    None
}

/// The value that a text spells, if it spells one and nothing else.
pub open spec fn spelled(t: Seq<char>) -> Option<JsonView> {
    match value_at(t, space_end(t, 0), 0) {
        Some((value, end)) => if space_end(t, end) == t.len() {
            Some(value)
        } else {
            None
        },
        None => None,
    }
}

/// Reads a text as one JSON value.
pub fn parse(text: &str) -> (value: Option<Json>)
    ensures
        match (value, spelled(text@)) {
            (Some(value), Some(expected)) => json_view(value) == expected,
            (None, None) => true,
            _ => false,
        },
{
    let t = text::characters(text);
    let start: usize = skip_space(&t, 0);
    match read_value(&t, start, 0) {
        Some((value, end)) => if skip_space(&t, end) == t.len() {
            Some(value)
        } else {
            None
        },
        None => None,
    }
}

} // verus!
