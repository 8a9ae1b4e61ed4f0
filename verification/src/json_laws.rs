//! What is written as JSON is read back.

use vstd::prelude::*;
use crate::json::{
    digits_end, escape_at, hex_digit, hex_unit, is_space, items_at, json_view, members_at, number_end,
    parse, space_end, text_at, value_at, word_at, Json, JsonView,
};

verus! {

/// Whether characters stand in a text at a position.
pub open spec fn stands(t: Seq<char>, at: int, w: Seq<char>) -> bool {
    &&& 0 <= at
    &&& at + w.len() <= t.len()
    &&& forall|i: int| 0 <= i < w.len() ==> t[at + i] == #[trigger] w[i]
}

/// What stands at a position stands there part by part.
pub proof fn lemma_stands(t: Seq<char>, at: int, a: Seq<char>, b: Seq<char>)
    requires
        stands(t, at, a + b),
    ensures
        stands(t, at, a),
        stands(t, at + a.len(), b),
{
    assert forall|i: int| 0 <= i < a.len() implies t[at + i] == #[trigger] a[i] by {
        assert((a + b)[i] == a[i]);
    }
    assert forall|i: int| 0 <= i < b.len() implies t[at + a.len() + i] == #[trigger] b[i] by {
        assert((a + b)[a.len() + i] == b[i]);
    }
}

/// The hexadecimal digit of a number below sixteen.
pub open spec fn hex(n: int) -> char {
    if n < 10 {
        (48 + n) as char
    } else {
        (87 + n) as char
    }
}

/// A character as it is written within quotation marks: the marks themselves, backslashes and what
/// is not printed are escaped.
pub open spec fn written_char(c: char) -> Seq<char> {
    if c == '"' || c == '\\' {
        seq!['\\', c]
    } else if ' ' > c {
        seq!['\\', 'u', '0', '0', hex(c as int / 16), hex(c as int % 16)]
    } else {
        seq![c]
    }
}

/// The rest of a text as it is written, with the closing quotation mark.
pub open spec fn written_text(s: Seq<char>) -> Seq<char>
    decreases s.len(),
{
    if s.len() == 0 {
        seq!['"']
    } else {
        written_char(s[0]) + written_text(s.skip(1))
    }
}

/// A value as it is written without white space.
pub open spec fn written(value: JsonView) -> Seq<char>
    decreases value,
{
    match value {
        JsonView::Null => seq!['n', 'u', 'l', 'l'],
        JsonView::Bool(true) => seq!['t', 'r', 'u', 'e'],
        JsonView::Bool(false) => seq!['f', 'a', 'l', 's', 'e'],
        JsonView::Number(digits) => digits,
        JsonView::Text(s) => seq!['"'] + written_text(s),
        JsonView::List(items) => if items.len() == 0 {
            seq!['[', ']']
        } else {
            seq!['['] + written_items(items)
        },
        JsonView::Object(members) => if members.len() == 0 {
            seq!['{', '}']
        } else {
            seq!['{'] + written_members(members)
        },
    }
}

/// The items of a list as they are written, with the closing bracket.
pub open spec fn written_items(items: Seq<JsonView>) -> Seq<char>
    decreases items,
{
    if items.len() == 0 {
        Seq::empty()
    } else if items.len() == 1 {
        written(items[0]) + seq![']']
    } else {
        written(items[0]) + (seq![','] + written_items(items.subrange(1, items.len() as int)))
    }
}

/// The members of an object as they are written, with the closing brace.
pub open spec fn written_members(members: Seq<(Seq<char>, JsonView)>) -> Seq<char>
    decreases members,
{
    if members.len() == 0 {
        Seq::empty()
    } else {
        seq!['"'] + (written_text(members[0].0) + (seq![':'] + (written(members[0].1) + if members.len()
            == 1 {
            seq!['}']
        } else {
            seq![','] + written_members(members.subrange(1, members.len() as int))
        })))
    }
}

/// Whether only decimal digits stand between two positions, and at least one.
pub open spec fn are_digits(d: Seq<char>, start: int, end: int) -> bool {
    &&& 0 <= start < end <= d.len()
    &&& forall|i: int| start <= i < end ==> '0' <= #[trigger] d[i] <= '9'
}

/// Where the digits of the exponent begin whose letter is at a position.
pub open spec fn exponent_digits(d: Seq<char>, at: int) -> int {
    if at + 1 < d.len() && (d[at + 1] == '+' || d[at + 1] == '-') {
        at + 2
    } else {
        at + 1
    }
}

/// Whether a number has a sign, whole digits, a fraction and an exponent that end at positions; each
/// but the whole digits may be missing.
pub open spec fn has_parts(d: Seq<char>, sign: int, whole: int, fraction: int) -> bool {
    &&& sign == 0 || (sign == 1 && d.len() > 0 && d[0] == '-')
    &&& are_digits(d, sign, whole)
    &&& d[sign] == '0' ==> whole == sign + 1
    &&& whole <= fraction <= d.len()
    &&& fraction > whole ==> d[whole] == '.' && are_digits(d, whole + 1, fraction)
    &&& d.len() > fraction ==> (d[fraction] == 'e' || d[fraction] == 'E') && are_digits(
        d,
        exponent_digits(d, fraction),
        d.len() as int,
    )
}

/// Whether characters are a number.
pub open spec fn is_number(d: Seq<char>) -> bool {
    exists|sign: int, whole: int, fraction: int| #[trigger] has_parts(d, sign, whole, fraction)
}

/// Whether a value below some lists and objects can be written: its numbers are numbers, and nothing
/// in it lies below more than 127 lists and objects.
pub open spec fn is_writable(value: JsonView, depth: int) -> bool
    decreases value,
{
    match value {
        JsonView::Number(digits) => is_number(digits),
        JsonView::List(items) => depth < 127 && forall|i: int|
            0 <= i < items.len() ==> is_writable(#[trigger] items[i], depth + 1),
        JsonView::Object(members) => depth < 127 && forall|i: int|
            0 <= i < members.len() ==> is_writable((#[trigger] members[i]).1, depth + 1),
        _ => true,
    }
}

/// Whether a value can end at a position: the text ends there or goes on with what can follow a
/// value.
pub open spec fn is_end(t: Seq<char>, at: int) -> bool {
    at == t.len() || (at < t.len() && (is_space(t[at]) || t[at] == ',' || t[at] == ']' || t[at]
        == '}'))
}

proof fn lemma_char(t: Seq<char>, at: int, c: char, gathered: Seq<char>)
    requires
        stands(t, at, written_char(c)),
    ensures
        text_at(t, at, gathered) == text_at(t, at + written_char(c).len(), gathered.push(c)),
{
    let w = written_char(c);
    assert(t[at + 0] == w[0]);
    if c == '"' || c == '\\' {
        assert(t[at + 1] == w[1]);
    } else if ' ' > c {
        assert(t[at + 1] == w[1]);
        assert(t[at + 2] == w[2]);
        assert(t[at + 3] == w[3]);
        assert(t[at + 4] == w[4]);
        assert(t[at + 5] == w[5]);
        let n = c as int;
        assert(0 <= n < 32);
        assert(n == 16 * (n / 16) + n % 16);
        assert(hex_unit(t, at + 2) == Some(c as u32));
        assert((c as u32) as char == c);
    }
}

proof fn lemma_text(t: Seq<char>, at: int, s: Seq<char>, gathered: Seq<char>)
    requires
        stands(t, at, written_text(s)),
    ensures
        text_at(t, at, gathered) == Some((gathered + s, at + written_text(s).len())),
    decreases s.len(),
{
    if s.len() == 0 {
        assert(t[at + 0] == written_text(s)[0]);
        assert(gathered + s =~= gathered);
    } else {
        let w = written_char(s[0]);
        lemma_stands(t, at, w, written_text(s.skip(1)));
        lemma_char(t, at, s[0], gathered);
        lemma_text(t, at + w.len(), s.skip(1), gathered.push(s[0]));
        assert(gathered.push(s[0]) + s.skip(1) =~= gathered + s);
    }
}

proof fn lemma_digits(t: Seq<char>, at: int, end: int)
    requires
        0 <= at <= end <= t.len(),
        forall|i: int| at <= i < end ==> '0' <= #[trigger] t[i] <= '9',
        end == t.len() || !('0' <= t[end] <= '9'),
    ensures
        digits_end(t, at) == end,
    decreases end - at,
{
    if at < end {
        assert('0' <= t[at] <= '9');
        lemma_digits(t, at + 1, end);
    }
}

proof fn lemma_shifted_digits(t: Seq<char>, at: int, d: Seq<char>, start: int, end: int)
    requires
        stands(t, at, d),
        are_digits(d, start, end),
        at + end == t.len() || !('0' <= t[at + end] <= '9'),
    ensures
        digits_end(t, at + start) == at + end,
        '0' <= t[at + start] <= '9',
        t[at + start] == d[start],
{
    assert forall|i: int| at + start <= i < at + end implies '0' <= #[trigger] t[i] <= '9' by {
        assert(t[at + (i - at)] == d[i - at]);
    }
    assert(t[at + start] == d[start]);
    lemma_digits(t, at + start, at + end);
}

proof fn lemma_number(t: Seq<char>, at: int, d: Seq<char>)
    requires
        stands(t, at, d),
        is_number(d),
        is_end(t, at + d.len()),
    ensures
        number_end(t, at) == Some(at + d.len()),
        t.subrange(at, at + d.len()) == d,
        d.len() > 0,
        d[0] == '-' || '0' <= d[0] <= '9',
{
    let (sign, whole, fraction) = choose|sign: int, whole: int, fraction: int| #[trigger]
        has_parts(d, sign, whole, fraction);
    let n = d.len() as int;
    assert(t[at + 0] == d[0]);
    assert(t.subrange(at, at + n) =~= d) by {
        assert forall|i: int| 0 <= i < n implies t.subrange(at, at + n)[i] == d[i] by {
            assert(t[at + i] == d[i]);
        }
    }
    if whole < n {
        assert(t[at + whole] == d[whole]);
    }
    if fraction < n {
        assert(t[at + fraction] == d[fraction]);
    }
    lemma_shifted_digits(t, at, d, sign, whole);
    if fraction > whole {
        lemma_shifted_digits(t, at, d, whole + 1, fraction);
    }
    if n > fraction {
        if fraction + 1 < n {
            assert(t[at + (fraction + 1)] == d[fraction + 1]);
        }
        lemma_shifted_digits(t, at, d, exponent_digits(d, fraction), n);
    }
}

proof fn lemma_first(value: JsonView, depth: int)
    requires
        is_writable(value, depth),
    ensures
        written(value).len() > 0,
        !is_space(written(value)[0]),
        written(value)[0] != ']',
{
    if let JsonView::Number(d) = value {
        let (sign, whole, fraction) = choose|sign: int, whole: int, fraction: int| #[trigger]
            has_parts(d, sign, whole, fraction);
        assert('0' <= d[sign] <= '9');
    }
}

proof fn lemma_words(t: Seq<char>, at: int)
    requires
        0 <= at,
    ensures
        word_at(t, at, "null"@) == stands(t, at, seq!['n', 'u', 'l', 'l']),
        word_at(t, at, "true"@) == stands(t, at, seq!['t', 'r', 'u', 'e']),
        word_at(t, at, "false"@) == stands(t, at, seq!['f', 'a', 'l', 's', 'e']),
{
    reveal_strlit("null");
    reveal_strlit("true");
    reveal_strlit("false");
    assert("null"@ =~= seq!['n', 'u', 'l', 'l']);
    assert("true"@ =~= seq!['t', 'r', 'u', 'e']);
    assert("false"@ =~= seq!['f', 'a', 'l', 's', 'e']);
    lemma_word(t, at, "null"@);
    lemma_word(t, at, "true"@);
    lemma_word(t, at, "false"@);
}

proof fn lemma_word(t: Seq<char>, at: int, word: Seq<char>)
    requires
        0 <= at,
    ensures
        word_at(t, at, word) == stands(t, at, word),
{
    if word_at(t, at, word) {
        assert forall|i: int| 0 <= i < word.len() implies t[at + i] == #[trigger] word[i] by {
            assert(t.subrange(at, at + word.len())[i] == word[i]);
        }
    }
    if stands(t, at, word) {
        assert(t.subrange(at, at + word.len()) =~= word);
    }
}

proof fn lemma_value(t: Seq<char>, at: int, value: JsonView, depth: int)
    requires
        0 <= depth,
        is_writable(value, depth),
        stands(t, at, written(value)),
        is_end(t, at + written(value).len()),
    ensures
        value_at(t, at, depth) == Some((value, at + written(value).len())),
    decreases value, 1int,
{
    let w = written(value);
    lemma_first(value, depth);
    lemma_words(t, at);
    assert(t[at + 0] == w[0]);
    match value {
        JsonView::Number(d) => {
            lemma_number(t, at, d);
        },
        JsonView::Text(s) => {
            lemma_stands(t, at, seq!['"'], written_text(s));
            lemma_text(t, at + 1, s, Seq::empty());
            assert(Seq::<char>::empty() + s =~= s);
        },
        JsonView::List(items) => {
            if items.len() == 0 {
                assert(t[at + 1] == w[1]);
                assert(items =~= Seq::empty());
            } else {
                lemma_stands(t, at, seq!['['], written_items(items));
                assert(is_writable(items[0], depth + 1));
                lemma_first(items[0], depth + 1);
                assert(t[at + 1 + 0] == written_items(items)[0]);
                assert(space_end(t, at + 1) == at + 1);
                lemma_items(t, at + 1, items, depth + 1, Seq::empty());
                assert(Seq::<JsonView>::empty() + items =~= items);
            }
        },
        JsonView::Object(members) => {
            if members.len() == 0 {
                assert(t[at + 1] == w[1]);
                assert(members =~= Seq::empty());
            } else {
                lemma_stands(t, at, seq!['{'], written_members(members));
                assert(t[at + 1 + 0] == written_members(members)[0]);
                assert(space_end(t, at + 1) == at + 1);
                lemma_members(t, at + 1, members, depth + 1, Seq::empty());
                assert(Seq::<(Seq<char>, JsonView)>::empty() + members =~= members);
            }
        },
        _ => {},
    }
}

proof fn lemma_items(
    t: Seq<char>,
    at: int,
    items: Seq<JsonView>,
    depth: int,
    gathered: Seq<JsonView>,
)
    requires
        0 <= depth,
        items.len() > 0,
        forall|i: int| 0 <= i < items.len() ==> is_writable(#[trigger] items[i], depth),
        stands(t, at, written_items(items)),
    ensures
        items_at(t, at, depth, gathered) == Some(
            (gathered + items, at + written_items(items).len()),
        ),
    decreases items, 0int,
{
    let w = written(items[0]);
    let rest = items.subrange(1, items.len() as int);
    let tail = if items.len() == 1 {
        seq![']']
    } else {
        seq![','] + written_items(rest)
    };
    assert(is_writable(items[0], depth));
    lemma_first(items[0], depth);
    lemma_stands(t, at, w, tail);
    assert(t[at + 0] == w[0]);
    assert(t[at + w.len() + 0] == tail[0]);
    lemma_value(t, at, items[0], depth);
    assert(space_end(t, at) == at);
    assert(space_end(t, at + w.len()) == at + w.len());
    if items.len() == 1 {
        assert(gathered.push(items[0]) =~= gathered + items);
    } else {
        lemma_stands(t, at + w.len(), seq![','], written_items(rest));
        assert forall|i: int| 0 <= i < rest.len() implies is_writable(
            #[trigger] rest[i],
            depth,
        ) by {
            assert(is_writable(items[i + 1], depth));
        }
        lemma_items(t, at + w.len() + 1, rest, depth, gathered.push(items[0]));
        assert(gathered.push(items[0]) + rest =~= gathered + items);
    }
}

proof fn lemma_members(
    t: Seq<char>,
    at: int,
    members: Seq<(Seq<char>, JsonView)>,
    depth: int,
    gathered: Seq<(Seq<char>, JsonView)>,
)
    requires
        0 <= depth,
        members.len() > 0,
        forall|i: int| 0 <= i < members.len() ==> is_writable((#[trigger] members[i]).1, depth),
        stands(t, at, written_members(members)),
    ensures
        members_at(t, at, depth, gathered) == Some(
            (gathered + members, at + written_members(members).len()),
        ),
    decreases members, 0int,
{
    let name = written_text(members[0].0);
    let w = written(members[0].1);
    let rest = members.subrange(1, members.len() as int);
    let tail = if members.len() == 1 {
        seq!['}']
    } else {
        seq![','] + written_members(rest)
    };
    assert(is_writable(members[0].1, depth));
    lemma_first(members[0].1, depth);
    lemma_stands(t, at, seq!['"'], name + (seq![':'] + (w + tail)));
    lemma_stands(t, at + 1, name, seq![':'] + (w + tail));
    let colon = at + 1 + name.len();
    lemma_stands(t, colon, seq![':'], w + tail);
    lemma_stands(t, colon + 1, w, tail);
    let end = colon + 1 + w.len();
    assert(t[at + 0] == seq!['"'][0]);
    assert(t[colon + 0] == seq![':'][0]);
    assert(t[colon + 1 + 0] == w[0]);
    assert(t[end + 0] == tail[0]);
    lemma_text(t, at + 1, members[0].0, Seq::empty());
    assert(Seq::<char>::empty() + members[0].0 =~= members[0].0);
    lemma_value(t, colon + 1, members[0].1, depth);
    assert(space_end(t, at) == at);
    assert(space_end(t, colon) == colon);
    assert(space_end(t, colon + 1) == colon + 1);
    assert(space_end(t, end) == end);
    if members.len() == 1 {
        assert(gathered.push(members[0]) =~= gathered + members);
    } else {
        lemma_stands(t, end, seq![','], written_members(rest));
        assert forall|i: int| 0 <= i < rest.len() implies is_writable(
            (#[trigger] rest[i]).1,
            depth,
        ) by {
            assert(is_writable(members[i + 1].1, depth));
        }
        lemma_members(t, end + 1, rest, depth, gathered.push(members[0]));
        assert(gathered.push(members[0]) + rest =~= gathered + members);
    }
}

proof fn lemma_space(t: Seq<char>, at: int, end: int)
    requires
        0 <= at <= end <= t.len(),
        forall|i: int| at <= i < end ==> is_space(#[trigger] t[i]),
        end == t.len() || !is_space(t[end]),
    ensures
        space_end(t, at) == end,
    decreases end - at,
{
    if at < end {
        assert(is_space(t[at]));
        lemma_space(t, at + 1, end);
    }
}

/// A value that is written down, white space round it or not, is read back as it was; with anything
/// else behind it, it is not read.
pub proof fn law_written_values_are_read(
    text: &str,
    value: JsonView,
    before: Seq<char>,
    after: Seq<char>,
    read: Option<Json>,
)
    requires
        is_writable(value, 0),
        text@ == before + (written(value) + after),
        forall|i: int|
            0 <= i < before.len() ==> (#[trigger] before[i] == ' ' || before[i] == '\n' || before[i]
                == '\t' || before[i] == '\r'),
        after.len() == 0 || after[0] == ' ' || after[0] == '\n' || after[0] == '\t' || after[0]
            == '\r' || after[0] == ',' || after[0] == ']' || after[0] == '}',
        call_ensures(parse, (text,), read),
    ensures
        read is Some <==> forall|i: int|
            0 <= i < after.len() ==> (#[trigger] after[i] == ' ' || after[i] == '\n' || after[i]
                == '\t' || after[i] == '\r'),
        read matches Some(read) ==> json_view(read) == value,
{
    let t = text@;
    let at = before.len() as int;
    let end = at + written(value).len();
    assert(stands(t, 0, before + (written(value) + after)));
    lemma_stands(t, 0, before, written(value) + after);
    lemma_stands(t, at, written(value), after);
    lemma_first(value, 0);
    assert(t[at + 0] == written(value)[0]);
    assert forall|i: int| 0 <= i < at implies is_space(#[trigger] t[i]) by {
        assert(t[0 + i] == before[i]);
    }
    lemma_space(t, 0, at);
    if after.len() > 0 {
        assert(t[end + 0] == after[0]);
    }
    lemma_value(t, at, value, 0);
    lemma_tail(t, end);
    if space_end(t, end) == t.len() {
        assert forall|i: int| 0 <= i < after.len() implies is_space(#[trigger] after[i]) by {
            assert(t[end + i] == after[i]);
        }
    } else {
        let stop = space_end(t, end);
        assert(t[end + (stop - end)] == after[stop - end]);
    }
}

/// A backslash makes one character of the next: a mark, a backslash or a slash itself, or what a
/// letter stands for. No other character may follow it alone.
pub proof fn law_short_escapes(text: &str, letter: char, read: Option<Json>)
    requires
        text@ == seq!['"', '\\', letter, '"'],
        call_ensures(parse, (text,), read),
    ensures
        read is Some <==> (letter == '"' || letter == '\\' || letter == '/' || letter == 'b' || letter
            == 'f' || letter == 'n' || letter == 'r' || letter == 't'),
        read matches Some(read) ==> (json_view(read) matches JsonView::Text(s) && s.len() == 1 && {
            &&& (letter == '"' || letter == '\\' || letter == '/') ==> s[0] == letter
            &&& letter == 'b' ==> s[0] as int == 8
            &&& letter == 't' ==> s[0] as int == 9
            &&& letter == 'n' ==> s[0] as int == 10
            &&& letter == 'f' ==> s[0] as int == 12
            &&& letter == 'r' ==> s[0] as int == 13
        }),
{
    let t = text@;
    reveal_with_fuel(text_at, 3);
    reveal_with_fuel(space_end, 2);
}

/// A character above the first plane may be written as two numbers of four hexadecimal digits, and
/// is read as one character.
pub proof fn law_pairs_are_one_character(text: &str, c: char, read: Option<Json>)
    requires
        0x10000 <= c as int,
        ({
            let high = 0xd800 + (c as int - 0x10000) / 1024;
            let low = 0xdc00 + (c as int - 0x10000) % 1024;
            text@ == seq!['"', '\\', 'u'] + four_hex(high) + seq!['\\', 'u'] + four_hex(low) + seq![
                '"',
            ]
        }),
        call_ensures(parse, (text,), read),
    ensures
        read matches Some(read) && json_view(read) == JsonView::Text(seq![c]),
{
    let t = text@;
    let high = 0xd800 + (c as int - 0x10000) / 1024;
    let low = 0xdc00 + (c as int - 0x10000) % 1024;
    assert(t.len() == 14 && t[0] == '"' && t[1] == '\\' && t[2] == 'u' && t[7] == '\\' && t[8] == 'u'
        && t[13] == '"');
    assert(stands(t, 3, four_hex(high)));
    assert(stands(t, 9, four_hex(low)));
    lemma_pair(t, c, high, low);
}

proof fn lemma_pair(t: Seq<char>, c: char, high: int, low: int)
    requires
        0x10000 <= c as int,
        high == 0xd800 + (c as int - 0x10000) / 1024,
        low == 0xdc00 + (c as int - 0x10000) % 1024,
        t.len() == 14,
        t[0] == '"' && t[1] == '\\' && t[2] == 'u' && t[7] == '\\' && t[8] == 'u' && t[13] == '"',
        stands(t, 3, four_hex(high)),
        stands(t, 9, four_hex(low)),
    ensures
        value_at(t, 0, 0) == Some((JsonView::Text(seq![c]), 14int)),
        space_end(t, 0) == 0,
        space_end(t, 14) == 14,
{
    assert(escape_at(t, 2) == Some((c, 13int))) by {
        lemma_four_hex(t, 3, high);
        lemma_four_hex(t, 9, low);
        lemma_pair_escape(t, c, high, low);
    }
    assert(text_at(t, 13, Seq::empty().push(c)) == Some((Seq::empty().push(c), 14int)));
    assert(text_at(t, 1, Seq::empty()) == text_at(t, 13, Seq::empty().push(c)));
    assert(Seq::<char>::empty().push(c) =~= seq![c]);
}

proof fn lemma_pair_escape(t: Seq<char>, c: char, high: int, low: int)
    requires
        0x10000 <= c as int,
        high == 0xd800 + (c as int - 0x10000) / 1024,
        low == 0xdc00 + (c as int - 0x10000) % 1024,
        t.len() == 14,
        t[2] == 'u' && t[7] == '\\' && t[8] == 'u',
        hex_unit(t, 3) == Some(high as u32),
        hex_unit(t, 9) == Some(low as u32),
    ensures
        escape_at(t, 2) == Some((c, 13int)),
{
    assert(0x10000 + 1024 * (high - 0xd800) + (low - 0xdc00) == c as int);
}

/// What is not printed must be escaped: a text that holds such a character as it is, is not read.
pub proof fn law_raw_controls_are_refused(
    text: &str,
    before: Seq<char>,
    c: char,
    after: Seq<char>,
    read: Option<Json>,
)
    requires
        text@ == seq!['"'] + before + seq![c] + after,
        forall|i: int|
            0 <= i < before.len() ==> #[trigger] before[i] as int >= 32 && before[i] != '"' && before[i]
                != '\\',
        (c as int) <= 31,
        call_ensures(parse, (text,), read),
    ensures
        read is None,
{
    let t = text@;
    assert forall|i: int| 1 <= i < 1 + before.len() implies (#[trigger] t[i]) as int >= 32 && t[i] != '"'
        && t[i] != '\\' by {
        assert(t[i] == before[i - 1]);
    }
    assert(t[1 + before.len() as int] == c);
    lemma_unread(t, 1, 1 + before.len() as int, Seq::empty());
    assert(space_end(t, 0) == 0);
}

proof fn lemma_unread(t: Seq<char>, at: int, stop: int, gathered: Seq<char>)
    requires
        0 <= at <= stop < t.len(),
        forall|i: int|
            at <= i < stop ==> (#[trigger] t[i]) as int >= 32 && t[i] != '"' && t[i] != '\\',
        (t[stop] as int) <= 31,
    ensures
        text_at(t, at, gathered) is None,
    decreases stop - at,
{
    if at < stop {
        assert(t[at] as int >= 32);
        lemma_unread(t, at + 1, stop, gathered.push(t[at]));
    }
}

/// A number below 65536 in four hexadecimal digits.
pub open spec fn four_hex(n: int) -> Seq<char> {
    seq![hex(n / 4096), hex(n / 256 % 16), hex(n / 16 % 16), hex(n % 16)]
}

proof fn lemma_four_hex(t: Seq<char>, at: int, n: int)
    requires
        0 <= n < 65536,
        stands(t, at, four_hex(n)),
    ensures
        hex_unit(t, at) == Some(n as u32),
{
    let w = four_hex(n);
    lemma_quarters(n);
    lemma_hex(n / 4096);
    lemma_hex(n / 256 % 16);
    lemma_hex(n / 16 % 16);
    lemma_hex(n % 16);
    assert(t[at + 0] == w[0]);
    assert(t[at + 1] == w[1]);
    assert(t[at + 2] == w[2]);
    assert(t[at + 3] == w[3]);
}

proof fn lemma_hex(n: int)
    requires
        0 <= n < 16,
    ensures
        hex_digit(hex(n)) == Some(n as u32),
{
}

proof fn lemma_quarters(n: int)
    requires
        0 <= n < 65536,
    ensures
        0 <= n / 4096 < 16,
        n == 4096 * (n / 4096) + 256 * (n / 256 % 16) + 16 * (n / 16 % 16) + n % 16,
{
    assert(n / 16 / 16 == n / 256);
    assert(n / 256 / 16 == n / 4096);
}

proof fn lemma_tail(t: Seq<char>, at: int)
    requires
        0 <= at <= t.len(),
    ensures
        at <= space_end(t, at) <= t.len(),
        forall|i: int| at <= i < space_end(t, at) ==> is_space(#[trigger] t[i]),
        space_end(t, at) < t.len() ==> !is_space(t[space_end(t, at)]),
    decreases t.len() - at,
{
    if at < t.len() && is_space(t[at]) {
        lemma_tail(t, at + 1);
    }
}

} // verus!
