//! Text: comparison, blankness, numbers and the small formatting that messages need.

use vstd::prelude::*;
use vstd::string::*;
use vstd::utf8::*;

verus! {

/// `String::push` appends one character at the end.
pub assume_specification[ String::push ](target: &mut String, ch: char)
    ensures
        final(target)@ == old(target)@.push(ch),
;

/// The characters of a text, in order.
pub fn characters(text: &str) -> (chars: Vec<char>)
    ensures
        chars@ == text@,
{
    let mut chars: Vec<char> = Vec::new();
    for character in rest: text.chars()
        invariant
            rest.seq() == text@,
            chars@ == text@.take(rest.index() as int),
    {
        assert(text@.take(rest.index() as int).push(character) =~= text@.take(rest.index() + 1));
        chars.push(character);
    }
    assert(text@.take(text@.len() as int) =~= text@);
    chars
}

/// The text with the given characters.
pub fn from_characters(chars: &[char]) -> (text: String)
    ensures
        text@ == chars@,
{
    let mut text = String::new();
    let mut position: usize = 0;
    assert(chars@.take(0) =~= Seq::<char>::empty());
    while position < chars.len()
        invariant
            position <= chars@.len(),
            text@ == chars@.take(position as int),
        decreases chars@.len() - position,
    {
        assert(chars@.take(position as int).push(chars@[position as int]) =~= chars@.take(
            position + 1,
        ));
        text.push(chars[position]);
        position = position + 1;
    }
    assert(chars@.take(position as int) =~= chars@);
    text
}

/// Whether two byte slices hold the same bytes.
pub fn same_bytes(left: &[u8], right: &[u8]) -> (same: bool)
    ensures
        same == (left@ == right@),
{
    if left.len() != right.len() {
        return false;
    }
    let mut position: usize = 0;
    while position < left.len()
        invariant
            left@.len() == right@.len(),
            position <= left@.len(),
            forall|i: int| 0 <= i < position ==> left@[i] == right@[i],
        decreases left@.len() - position,
    {
        if left[position] != right[position] {
            return false;
        }
        position = position + 1;
    }
    assert(left@ =~= right@);
    true
}

/// Whether two texts are the same sequence of characters.
pub fn same(left: &str, right: &str) -> (same: bool)
    ensures
        same == (left@ == right@),
{
    proof {
        encode_utf8_decode_utf8(left@);
        encode_utf8_decode_utf8(right@);
    }
    same_bytes(left.as_bytes(), right.as_bytes())
}

/// Two texts joined.
pub fn join(left: &str, right: &str) -> (text: String)
    ensures
        text@ == left@ + right@,
{
    let mut text = left.to_owned();
    text.append(right);
    text
}

/// Whether a character has Unicode's `White_Space` property.
pub open spec fn is_whitespace(c: char) -> bool {
    ||| '\u{9}' <= c <= '\u{d}'
    ||| c == ' '
    ||| c == '\u{85}'
    ||| c == '\u{a0}'
    ||| c == '\u{1680}'
    ||| '\u{2000}' <= c <= '\u{200a}'
    ||| c == '\u{2028}'
    ||| c == '\u{2029}'
    ||| c == '\u{202f}'
    ||| c == '\u{205f}'
    ||| c == '\u{3000}'
}

/// Whether nothing but white space stands in a text.
pub open spec fn is_blank(text: Seq<char>) -> bool {
    forall|i: int| 0 <= i < text.len() ==> is_whitespace(#[trigger] text[i])
}

/// Tells whether a character is white space.
pub fn whitespace(c: char) -> (b: bool)
    ensures
        b == is_whitespace(c),
{
    ('\u{9}' <= c && c <= '\u{d}') || c == ' ' || c == '\u{85}' || c == '\u{a0}' || c == '\u{1680}'
        || ('\u{2000}' <= c && c <= '\u{200a}') || c == '\u{2028}' || c == '\u{2029}' || c
        == '\u{202f}' || c == '\u{205f}' || c == '\u{3000}'
}

/// Whether nothing is left of a text once its white space is trimmed.
pub fn blank(text: &str) -> (b: bool)
    ensures
        b == is_blank(text@),
{
    let chars = characters(text);
    let mut position: usize = 0;
    while position < chars.len()
        invariant
            chars@ == text@,
            position <= chars@.len(),
            forall|i: int| 0 <= i < position ==> is_whitespace(#[trigger] text@[i]),
        decreases chars@.len() - position,
    {
        if !whitespace(chars[position]) {
            return false;
        }
        position = position + 1;
    }
    true
}

/// A text without the white space at its two ends.
pub open spec fn trimmed(text: Seq<char>) -> Seq<char>
    decreases text.len(),
{
    if text.len() > 0 && is_whitespace(text[0]) {
        trimmed(text.drop_first())
    } else if text.len() > 0 && is_whitespace(text.last()) {
        trimmed(text.drop_last())
    } else {
        text
    }
}

/// Removes the white space at the two ends of a text.
pub fn trim(text: &str) -> (result: String)
    ensures
        result@ == trimmed(text@),
{
    let chars = characters(text);
    let mut start: usize = 0;
    let mut end: usize = chars.len();
    assert(text@.subrange(0, text@.len() as int) =~= text@);
    while start < end && whitespace(chars[start])
        invariant
            chars@ == text@,
            start <= end == text@.len(),
            trimmed(text@) == trimmed(text@.subrange(start as int, end as int)),
        decreases end - start,
    {
        assert(text@.subrange(start as int, end as int).drop_first() =~= text@.subrange(
            start + 1,
            end as int,
        ));
        start = start + 1;
    }
    while start < end && whitespace(chars[end - 1])
        invariant
            chars@ == text@,
            start <= end <= text@.len(),
            trimmed(text@) == trimmed(text@.subrange(start as int, end as int)),
            start < end ==> !is_whitespace(text@[start as int]),
        decreases end - start,
    {
        assert(text@.subrange(start as int, end as int).drop_last() =~= text@.subrange(
            start as int,
            end - 1,
        ));
        end = end - 1;
    }
    from_characters(vstd::slice::slice_subrange(chars.as_slice(), start, end))
}

/// Whether `text` begins with `prefix`.
pub open spec fn begins_with(text: Seq<char>, prefix: Seq<char>) -> bool {
    prefix.len() <= text.len() && text.take(prefix.len() as int) == prefix
}

/// Whether `text` ends with `suffix`.
pub open spec fn finishes_with(text: Seq<char>, suffix: Seq<char>) -> bool {
    suffix.len() <= text.len() && text.skip(text.len() - suffix.len()) == suffix
}

/// Whether `wanted` stands in `chars` at `offset`.
pub fn stands_at(chars: &Vec<char>, offset: usize, wanted: &Vec<char>) -> (b: bool)
    requires
        offset + wanted@.len() <= chars@.len(),
    ensures
        b == (chars@.subrange(offset as int, offset + wanted@.len()) == wanted@),
{
    let total: usize = chars.len();
    let mut position: usize = 0;
    while position < wanted.len()
        invariant
            offset + wanted@.len() <= chars@.len() == total,
            position <= wanted@.len(),
            forall|i: int| 0 <= i < position ==> chars@[offset + i] == wanted@[i],
        decreases wanted@.len() - position,
    {
        if chars[offset + position] != wanted[position] {
            assert(chars@.subrange(offset as int, offset + wanted@.len())[position as int]
                != wanted@[position as int]);
            return false;
        }
        position = position + 1;
    }
    assert(chars@.subrange(offset as int, offset + wanted@.len()) =~= wanted@);
    true
}

/// Whether a text begins with a prefix.
pub fn starts_with(text: &str, prefix: &str) -> (b: bool)
    ensures
        b == begins_with(text@, prefix@),
{
    let chars = characters(text);
    let wanted = characters(prefix);
    if wanted.len() > chars.len() {
        return false;
    }
    assert(text@.take(prefix@.len() as int) =~= text@.subrange(0, prefix@.len() as int));
    stands_at(&chars, 0, &wanted)
}

/// Whether a text ends with a suffix.
pub fn ends_with(text: &str, suffix: &str) -> (b: bool)
    ensures
        b == finishes_with(text@, suffix@),
{
    let chars = characters(text);
    let wanted = characters(suffix);
    if wanted.len() > chars.len() {
        return false;
    }
    assert(text@.skip(text@.len() - suffix@.len()) =~= text@.subrange(
        text@.len() - suffix@.len(),
        text@.len() as int,
    ));
    stands_at(&chars, chars.len() - wanted.len(), &wanted)
}

/// What follows a prefix, where the text begins with it.
pub fn strip_prefix(text: &str, prefix: &str) -> (rest: Option<String>)
    ensures
        rest is Some == begins_with(text@, prefix@),
        rest matches Some(tail) ==> tail@ == text@.skip(prefix@.len() as int),
{
    if !starts_with(text, prefix) {
        return None;
    }
    let chars = characters(text);
    let wanted = characters(prefix);
    let tail = from_characters(
        vstd::slice::slice_subrange(chars.as_slice(), wanted.len(), chars.len()),
    );
    assert(tail@ =~= text@.skip(prefix@.len() as int));
    Some(tail)
}

/// Whether the two texts agree before `at`, and `left` comes first there: it ends, or its
/// character is the smaller one.
pub open spec fn parts_at(left: Seq<char>, right: Seq<char>, at: int) -> bool {
    &&& 0 <= at <= left.len()
    &&& at < right.len()
    &&& forall|i: int| 0 <= i < at ==> left[i] == right[i]
    &&& at == left.len() || left[at] < right[at]
}

/// The order of texts: by the first character in which they differ, a prefix first.
pub open spec fn precedes(left: Seq<char>, right: Seq<char>) -> bool {
    exists|at: int| parts_at(left, right, at)
}

/// Whether one text comes before another.
pub fn before(left: &str, right: &str) -> (b: bool)
    ensures
        b == precedes(left@, right@),
{
    let first = characters(left);
    let second = characters(right);
    let mut at: usize = 0;
    while at < first.len() && at < second.len() && first[at] == second[at]
        invariant
            first@ == left@,
            second@ == right@,
            at <= left@.len(),
            at <= right@.len(),
            forall|i: int| 0 <= i < at ==> left@[i] == right@[i],
        decreases left@.len() - at,
    {
        at = at + 1;
    }
    let earlier = at < second.len() && (at == first.len() || first[at] < second[at]);
    proof {
        if earlier {
            assert(parts_at(left@, right@, at as int));
        } else {
            assert forall|k: int| !parts_at(left@, right@, k) by {
                if parts_at(left@, right@, k) {
                    if k < at {
                        assert(left@[k] == right@[k]);
                    } else if k > at {
                        assert(left@[at as int] == right@[at as int]);
                    }
                }
            }
        }
    }
    earlier
}

/// No text comes before itself.
pub proof fn law_order_irreflexive(text: Seq<char>)
    ensures
        !precedes(text, text),
{
}

/// The order of texts is transitive.
pub proof fn law_order_transitive(first: Seq<char>, second: Seq<char>, third: Seq<char>)
    requires
        precedes(first, second),
        precedes(second, third),
    ensures
        precedes(first, third),
{
    let a = choose|at: int| parts_at(first, second, at);
    let b = choose|at: int| parts_at(second, third, at);
    if a <= b {
        assert(parts_at(first, third, a));
    } else {
        assert(parts_at(first, third, b));
    }
}

/// Of two different texts one comes before the other.
pub proof fn law_order_total(left: Seq<char>, right: Seq<char>)
    ensures
        left == right || precedes(left, right) || precedes(right, left),
{
    lemma_order_total_from(left, right, 0);
}

proof fn lemma_order_total_from(left: Seq<char>, right: Seq<char>, at: int)
    requires
        0 <= at <= left.len(),
        at <= right.len(),
        forall|i: int| 0 <= i < at ==> left[i] == right[i],
    ensures
        left == right || precedes(left, right) || precedes(right, left),
    decreases left.len() - at,
{
    if at < left.len() && at < right.len() {
        if left[at] == right[at] {
            lemma_order_total_from(left, right, at + 1);
        } else if left[at] < right[at] {
            assert(parts_at(left, right, at));
        } else {
            assert(parts_at(right, left, at));
        }
    } else if at < right.len() {
        assert(parts_at(left, right, at));
    } else if at < left.len() {
        assert(parts_at(right, left, at));
    } else {
        assert(left =~= right);
    }
}

/// The character of a decimal digit.
pub open spec fn digit_char(digit: nat) -> char {
    ((48 + digit) as u8) as char
}

/// A number in decimal digits, without leading zeros.
pub open spec fn decimal_text(number: nat) -> Seq<char>
    decreases number,
{
    if number < 10 {
        seq![digit_char(number)]
    } else {
        decimal_text(number / 10).push(digit_char(number % 10))
    }
}

/// Writes a number in decimal digits.
pub fn decimal(number: u64) -> (text: String)
    ensures
        text@ == decimal_text(number as nat),
    decreases number,
{
    let mut text = if number < 10 {
        String::new()
    } else {
        decimal(number / 10)
    };
    text.push((48u8 + (number % 10) as u8) as char);
    assert(number < 10 ==> text@ =~= decimal_text(number as nat));
    text
}

/// The character of a lower-case hexadecimal digit.
pub open spec fn hex_char(digit: nat) -> char {
    if digit < 10 {
        ((48 + digit) as u8) as char
    } else {
        ((87 + digit) as u8) as char
    }
}

/// The lowest `width` hexadecimal digits of a number, most significant first.
pub open spec fn hex_text(number: nat, width: nat) -> Seq<char>
    decreases width,
{
    if width == 0 {
        Seq::empty()
    } else {
        hex_text(number / 16, (width - 1) as nat).push(hex_char(number % 16))
    }
}

fn hex_digit(digit: u8) -> (c: char)
    requires
        digit < 16,
    ensures
        c == hex_char(digit as nat),
{
    if digit < 10 {
        (48u8 + digit) as char
    } else {
        (87u8 + digit) as char
    }
}

/// Writes the lowest `width` hexadecimal digits of a number.
pub fn hex(number: u64, width: usize) -> (text: String)
    ensures
        text@ == hex_text(number as nat, width as nat),
    decreases width,
{
    if width == 0 {
        return String::new();
    }
    let mut text = hex(number / 16, width - 1);
    text.push(hex_digit((number % 16) as u8));
    text
}

/// Bytes in hexadecimal, two digits each.
pub open spec fn hex_bytes_text(bytes: Seq<u8>) -> Seq<char>
    decreases bytes.len(),
{
    if bytes.len() == 0 {
        Seq::empty()
    } else {
        hex_bytes_text(bytes.drop_last()).push(hex_char((bytes.last() / 16) as nat)).push(
            hex_char((bytes.last() % 16) as nat),
        )
    }
}

/// Writes bytes in hexadecimal, two digits each.
pub fn hex_bytes(bytes: &[u8]) -> (text: String)
    ensures
        text@ == hex_bytes_text(bytes@),
{
    let mut text = String::new();
    let mut position: usize = 0;
    while position < bytes.len()
        invariant
            position <= bytes@.len(),
            text@ == hex_bytes_text(bytes@.take(position as int)),
        decreases bytes@.len() - position,
    {
        let byte: u8 = bytes[position];
        text.push(hex_digit(byte / 16));
        text.push(hex_digit(byte % 16));
        assert(bytes@.take(position + 1).drop_last() =~= bytes@.take(position as int));
        position = position + 1;
    }
    assert(bytes@.take(position as int) =~= bytes@);
    text
}

/// Why a text is not a number.
#[derive(Clone, Copy, Debug, PartialEq, Eq, Structural)]
pub enum NumberError {
    Empty,
    InvalidDigit,
    PosOverflow,
}

impl NumberError {
    /// What the reason reads as.
    pub open spec fn spec_text(self) -> Seq<char> {
        match self {
            NumberError::Empty => "cannot parse integer from empty string"@,
            NumberError::InvalidDigit => "invalid digit found in string"@,
            NumberError::PosOverflow => "number too large to fit in target type"@,
        }
    }

    /// Describes the reason.
    pub fn text(&self) -> (text: &'static str)
        ensures
            text@ == self.spec_text(),
    {
        match self {
            NumberError::Empty => "cannot parse integer from empty string",
            NumberError::InvalidDigit => "invalid digit found in string",
            NumberError::PosOverflow => "number too large to fit in target type",
        }
    }
}

/// The number that decimal digits spell after `value`, read from the left: the first character
/// that is no digit, or that takes the value past `maximum`, decides the error.
pub open spec fn digits_value(digits: Seq<char>, value: nat, maximum: nat) -> Result<
    nat,
    NumberError,
>
    decreases digits.len(),
{
    if digits.len() == 0 {
        Ok(value)
    } else if !('0' <= digits[0] <= '9') {
        Err(NumberError::InvalidDigit)
    } else {
        let next = value * 10 + (digits[0] as nat - 48) as nat;
        if next > maximum {
            Err(NumberError::PosOverflow)
        } else {
            digits_value(digits.drop_first(), next, maximum)
        }
    }
}

/// The number that a text spells: decimal digits, after one `+` where there is one.
pub open spec fn number_value(text: Seq<char>, maximum: nat) -> Result<nat, NumberError> {
    if text.len() == 0 {
        Err(NumberError::Empty)
    } else if text[0] == '+' && text.len() > 1 {
        digits_value(text.drop_first(), 0, maximum)
    } else {
        digits_value(text, 0, maximum)
    }
}

/// Reads an unsigned number.
pub fn parse_number(text: &str) -> (number: Result<usize, NumberError>)
    ensures
        match (number, number_value(text@, usize::MAX as nat)) {
            (Ok(value), Ok(expected)) => value == expected,
            (Err(error), Err(expected)) => error == expected,
            _ => false,
        },
{
    let chars = characters(text);
    if chars.len() == 0 {
        return Err(NumberError::Empty);
    }
    let mut position: usize = if chars[0] == '+' && chars.len() > 1 {
        1
    } else {
        0
    };
    let mut value: usize = 0;
    assert(text@.skip(0) =~= text@);
    assert(text@.skip(1) =~= text@.drop_first());
    while position < chars.len()
        invariant
            chars@ == text@,
            chars@.len() > 0,
            position <= chars@.len(),
            number_value(text@, usize::MAX as nat) == digits_value(
                text@.skip(position as int),
                value as nat,
                usize::MAX as nat,
            ),
        decreases chars@.len() - position,
    {
        let c = chars[position];
        assert(text@.skip(position as int)[0] == c);
        assert(text@.skip(position as int).drop_first() =~= text@.skip(position + 1));
        if c < '0' || c > '9' {
            return Err(NumberError::InvalidDigit);
        }
        let digit: usize = (c as u32 - 48) as usize;
        match value.checked_mul(10) {
            Some(tens) => match tens.checked_add(digit) {
                Some(next) => {
                    value = next;
                },
                None => {
                    return Err(NumberError::PosOverflow);
                },
            },
            None => {
                return Err(NumberError::PosOverflow);
            },
        }
        position = position + 1;
    }
    Ok(value)
}

/// What `FromUtf8Error` prints for bytes that are not UTF-8.
pub uninterp spec fn utf8_error_text(bytes: Seq<u8>) -> Seq<char>;

/// `String::from_utf8`: the text that the bytes encode, or the printed error where they are not
/// UTF-8. Which words the error prints is only named.
#[verifier::external_body]
pub(crate) fn decode(bytes: Vec<u8>) -> (text: Result<String, String>)
    ensures
        text is Ok == valid_utf8(bytes@),
        text matches Ok(value) ==> value@ == decode_utf8(bytes@),
        text matches Err(error) ==> error@ == utf8_error_text(bytes@),
{
    String::from_utf8(bytes).map_err(|error| error.to_string())
}

/// The text that bytes encode, or the printed error where they are not UTF-8.
pub fn decode_slice(bytes: &[u8]) -> (text: Result<String, String>)
    ensures
        text is Ok == valid_utf8(bytes@),
        text matches Ok(value) ==> value@ == decode_utf8(bytes@),
        text matches Err(error) ==> error@ == utf8_error_text(bytes@),
{
    let mut owned: Vec<u8> = Vec::new();
    owned.extend_from_slice(bytes);
    assert(owned@ =~= bytes@);
    decode(owned)
}

/// The value of a text that may be missing.
pub open spec fn optional(text: Option<String>) -> Option<Seq<char>> {
    match text {
        Some(text) => Some(text@),
        None => None,
    }
}

} // verus!
