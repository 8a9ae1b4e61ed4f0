//! What numbers and trimmed texts look like.

use vstd::prelude::*;
use vstd::string::*;

use crate::failure::Failure;
use crate::text::{
    before, blank, decimal, decimal_text, digit_char, digits_value, ends_with, hex, hex_bytes,
    hex_bytes_text, hex_char, hex_text, is_whitespace, parse_number, starts_with, strip_prefix,
    trim, trimmed, NumberError,
};

verus! {

/// Whether a text consists of decimal digits.
pub open spec fn are_digits(text: Seq<char>) -> bool {
    text.len() > 0 && forall|i: int| 0 <= i < text.len() ==> '0' <= #[trigger] text[i] <= '9'
}

/// The number that decimal digits spell, the lowest last.
pub open spec fn spelled(text: Seq<char>) -> nat
    decreases text.len(),
{
    if text.len() == 0 {
        0
    } else {
        (10 * spelled(text.drop_last()) + (text.last() as nat - '0' as nat)) as nat
    }
}

/// The number that digits spell behind a value.
spec fn spelled_behind(value: nat, text: Seq<char>) -> nat
    decreases text.len(),
{
    if text.len() == 0 {
        value
    } else {
        (10 * spelled_behind(value, text.drop_last()) + (text.last() as nat - '0' as nat)) as nat
    }
}

proof fn lemma_spelled_behind(value: nat, text: Seq<char>)
    requires
        forall|i: int| 0 <= i < text.len() ==> '0' <= #[trigger] text[i] <= '9',
    ensures
        text.len() > 0 ==> spelled_behind(value, text) == spelled_behind(
            (value * 10 + (text[0] as nat - 48)) as nat,
            text.drop_first(),
        ),
        spelled_behind(value, text) >= value,
    decreases text.len(),
{
    if text.len() > 0 {
        let front = text.drop_last();
        assert forall|i: int| 0 <= i < front.len() implies '0' <= #[trigger] front[i] <= '9' by {
            assert(front[i] == text[i]);
        }
        lemma_spelled_behind(value, front);
        assert('0' <= text[text.len() - 1] <= '9');
        if text.len() == 1 {
            assert(text.drop_first().len() == 0);
            assert(front.len() == 0);
            assert(spelled_behind(value, front) == value);
        } else {
            let rest = text.drop_first();
            assert(rest.drop_last() =~= front.drop_first());
            assert(rest.last() == text.last());
            assert(front[0] == text[0]);
        }
    }
}

proof fn lemma_digits(digits: Seq<char>, value: nat, maximum: nat)
    requires
        value <= maximum,
    ensures
        digits_value(digits, value, maximum) is Ok <==> (forall|i: int|
            0 <= i < digits.len() ==> '0' <= #[trigger] digits[i] <= '9') && spelled_behind(
            value,
            digits,
        ) <= maximum,
        digits_value(digits, value, maximum) matches Ok(number) ==> number == spelled_behind(
            value,
            digits,
        ),
    decreases digits.len(),
{
    if digits.len() > 0 {
        let rest = digits.drop_first();
        assert forall|i: int| 0 <= i < rest.len() implies #[trigger] rest[i] == digits[i + 1] by {
        }
        let all = forall|i: int| 0 <= i < digits.len() ==> '0' <= #[trigger] digits[i] <= '9';
        if all {
            assert('0' <= digits[0] <= '9');
            lemma_spelled_behind(value, digits);
            let next = (value * 10 + (digits[0] as nat - 48)) as nat;
            assert forall|i: int| 0 <= i < rest.len() implies '0' <= #[trigger] rest[i] <= '9' by {
                assert(rest[i] == digits[i + 1]);
            }
            lemma_spelled_behind(next, rest);
            if next <= maximum {
                lemma_digits(rest, next, maximum);
            }
        } else if '0' <= digits[0] <= '9' {
            let next = (value * 10 + (digits[0] as nat - 48)) as nat;
            if next <= maximum {
                lemma_digits(rest, next, maximum);
                if digits_value(digits, value, maximum) is Ok {
                    assert forall|i: int| 0 <= i < digits.len() implies '0' <= #[trigger] digits[i]
                        <= '9' by {
                        if i > 0 {
                            assert(rest[i - 1] == digits[i]);
                        }
                    }
                }
            }
        }
    }
}

proof fn lemma_spelled(text: Seq<char>)
    ensures
        spelled(text) == spelled_behind(0, text),
    decreases text.len(),
{
    if text.len() > 0 {
        lemma_spelled(text.drop_last());
    }
}

/// A text is read as a number if and only if it has decimal digits alone, behind one `+` at most, and
/// the number that they spell is not too large; it is then that number.
pub proof fn law_numbers_are_decimal(text: &str, number: Result<usize, NumberError>)
    requires
        call_ensures(parse_number, (text,), number),
    ensures
        are_digits(text@) && spelled(text@) <= usize::MAX ==> number == Ok::<usize, NumberError>(
            spelled(text@) as usize,
        ),
        text@.len() > 0 && text@[0] == '+' && are_digits(text@.drop_first()) && spelled(
            text@.drop_first(),
        ) <= usize::MAX ==> number == Ok::<usize, NumberError>(
            spelled(text@.drop_first()) as usize,
        ),
        number is Ok ==> (are_digits(text@) && spelled(text@) <= usize::MAX) || (text@.len() > 0
            && text@[0] == '+' && are_digits(text@.drop_first()) && spelled(text@.drop_first())
            <= usize::MAX),
{
    lemma_digits(text@, 0, usize::MAX as nat);
    lemma_spelled(text@);
    if text@.len() > 0 {
        lemma_digits(text@.drop_first(), 0, usize::MAX as nat);
        lemma_spelled(text@.drop_first());
        if are_digits(text@) {
            assert('0' <= text@[0] <= '9');
        }
    }
}

/// What decimal digits spell.
pub proof fn lemma_decimal(number: nat)
    ensures
        are_digits(decimal_text(number)),
        spelled(decimal_text(number)) == number,
        decimal_text(number).len() > 1 ==> decimal_text(number)[0] != '0',
        number > 0 ==> decimal_text(number)[0] != '0',
    decreases number,
{
    let text = decimal_text(number);
    let last = digit_char(number % 10);
    assert('0' <= last <= '9');
    assert(last as nat - '0' as nat == number % 10);
    if number < 10 {
        assert(text.drop_last() =~= Seq::<char>::empty());
        assert(spelled(text.drop_last()) == 0);
    } else {
        lemma_decimal(number / 10);
        assert(text.drop_last() =~= decimal_text(number / 10));
        assert forall|i: int| 0 <= i < text.len() implies '0' <= #[trigger] text[i] <= '9' by {
            if i < text.len() - 1 {
                assert(decimal_text(number / 10)[i] == text[i]);
            }
        }
        assert(text[0] == decimal_text(number / 10)[0]);
    }
}

/// A number is written in decimal digits that spell it, without a zero in front.
pub proof fn law_written_numbers_are_decimal(number: u64, text: String)
    requires
        call_ensures(decimal, (number,), text),
    ensures
        are_digits(text@),
        spelled(text@) == number,
        text@.len() > 1 ==> text@[0] != '0',
{
    lemma_decimal(number as nat);
}

/// What a hexadecimal digit stands for.
pub open spec fn hex_digit_value(c: char) -> int {
    if '0' <= c <= '9' {
        c as int - '0' as int
    } else if 'a' <= c <= 'f' {
        c as int - 'a' as int + 10
    } else {
        -1
    }
}

/// The number that hexadecimal digits spell, the lowest last.
pub open spec fn hex_spelled(text: Seq<char>) -> int
    decreases text.len(),
{
    if text.len() == 0 {
        0
    } else {
        16 * hex_spelled(text.drop_last()) + hex_digit_value(text.last())
    }
}

/// How many numbers can be spelled with hexadecimal digits.
pub open spec fn hex_range(width: nat) -> nat
    decreases width,
{
    if width == 0 {
        1
    } else {
        16 * hex_range((width - 1) as nat)
    }
}

/// What hexadecimal digits spell.
pub proof fn lemma_hex(number: nat, width: nat)
    ensures
        hex_text(number, width).len() == width,
        hex_range(width) > 0,
        number < hex_range(width) ==> hex_spelled(hex_text(number, width)) == number,
        forall|i: int|
            0 <= i < width ==> hex_digit_value(#[trigger] hex_text(number, width)[i]) >= 0,
    decreases width,
{
    if width > 0 {
        let shorter = (width - 1) as nat;
        lemma_hex(number / 16, shorter);
        let text = hex_text(number, width);
        assert(text.drop_last() =~= hex_text(number / 16, shorter));
        assert(hex_digit_value(hex_char(number % 16)) == number % 16);
        assert forall|i: int| 0 <= i < width implies hex_digit_value(#[trigger] text[i]) >= 0 by {
            if i < width - 1 {
                assert(hex_text(number / 16, shorter)[i] == text[i]);
            }
        }
    }
}

/// A number that fits is written in hexadecimal digits that spell it, as many as asked for and none in
/// upper case.
pub proof fn law_written_numbers_are_hexadecimal(number: u64, width: usize, text: String)
    requires
        call_ensures(hex, (number, width), text),
    ensures
        text@.len() == width,
        forall|i: int| 0 <= i < width ==> hex_digit_value(#[trigger] text@[i]) >= 0,
        number < hex_range(width as nat) ==> hex_spelled(text@) == number,
{
    lemma_hex(number as nat, width as nat);
}

proof fn lemma_hex_bytes(bytes: Seq<u8>, i: int)
    requires
        0 <= i < bytes.len(),
    ensures
        hex_bytes_text(bytes).len() == 2 * bytes.len(),
        hex_bytes_text(bytes)[2 * i] == hex_char((bytes[i] / 16) as nat),
        hex_bytes_text(bytes)[2 * i + 1] == hex_char((bytes[i] % 16) as nat),
    decreases bytes.len(),
{
    let front = bytes.drop_last();
    if front.len() > 0 {
        lemma_hex_bytes(
            front,
            if i < front.len() {
                i
            } else {
                0
            },
        );
    } else {
        assert(hex_bytes_text(front).len() == 0);
    }
    if i < front.len() {
        assert(front[i] == bytes[i]);
    }
}

/// Bytes are written with two hexadecimal digits each, the higher one first.
pub proof fn law_written_bytes_are_hexadecimal(bytes: &[u8], text: String, i: int)
    requires
        call_ensures(hex_bytes, (bytes,), text),
        0 <= i < bytes@.len(),
    ensures
        text@.len() == 2 * bytes@.len(),
        bytes@[i] == 16 * hex_digit_value(text@[2 * i]) + hex_digit_value(text@[2 * i + 1]),
        hex_digit_value(text@[2 * i]) >= 0,
        hex_digit_value(text@[2 * i + 1]) >= 0,
{
    lemma_hex_bytes(bytes@, i);
}

proof fn lemma_trimmed(text: Seq<char>) -> (place: (int, int))
    ensures
        0 <= place.0 <= place.1 <= text.len(),
        trimmed(text) == text.subrange(place.0, place.1),
        forall|i: int| 0 <= i < place.0 || place.1 <= i < text.len() ==> is_whitespace(#[trigger] text[i]),
        place.0 < place.1 ==> !is_whitespace(text[place.0]) && !is_whitespace(text[place.1 - 1]),
    decreases text.len(),
{
    if text.len() > 0 && is_whitespace(text[0]) {
        let rest = text.drop_first();
        let inner = lemma_trimmed(rest);
        let place = (inner.0 + 1, inner.1 + 1);
        assert(rest.subrange(inner.0, inner.1) =~= text.subrange(place.0, place.1));
        assert forall|i: int| 0 <= i < place.0 || place.1 <= i < text.len() implies is_whitespace(
            #[trigger] text[i],
        ) by {
            if i > 0 {
                assert(rest[i - 1] == text[i]);
            }
        }
        place
    } else if text.len() > 0 && is_whitespace(text.last()) {
        let rest = text.drop_last();
        let place = lemma_trimmed(rest);
        assert(rest.subrange(place.0, place.1) =~= text.subrange(place.0, place.1));
        assert forall|i: int| 0 <= i < place.0 || place.1 <= i < text.len() implies is_whitespace(
            #[trigger] text[i],
        ) by {
            if i < rest.len() {
                assert(rest[i] == text[i]);
            }
        }
        place
    } else {
        assert(text.subrange(0, text.len() as int) =~= text);
        (0, text.len() as int)
    }
}

/// A trimmed text is the part of a text that begins and ends with its first and last character that is
/// not white space.
pub proof fn law_trimmed_texts(text: &str, result: String) -> (place: (int, int))
    requires
        call_ensures(trim, (text,), result),
    ensures
        0 <= place.0 <= place.1 <= text@.len(),
        result@ == text@.subrange(place.0, place.1),
        forall|i: int|
            0 <= i < place.0 || place.1 <= i < text@.len() ==> is_whitespace(#[trigger] text@[i]),
        place.0 < place.1 ==> !is_whitespace(text@[place.0]) && !is_whitespace(text@[place.1 - 1]),
{
    lemma_trimmed(text@)
}

/// A text is blank if and only if it has nothing but white space.
pub proof fn law_blank_texts(text: &str, is_blank: bool)
    requires
        call_ensures(blank, (text,), is_blank),
    ensures
        is_blank <==> forall|i: int|
            0 <= i < text@.len() ==> {
                let c = #[trigger] text@[i];
                c == ' ' || '\u{9}' <= c <= '\u{d}' || c == '\u{85}' || c == '\u{a0}' || c
                    == '\u{1680}' || '\u{2000}' <= c <= '\u{200a}' || c == '\u{2028}' || c
                    == '\u{2029}' || c == '\u{202f}' || c == '\u{205f}' || c == '\u{3000}'
            },
{
}

/// A text begins with another if and only if it is the other with something behind it, and that is what
/// is left without it; it ends with another if and only if it is the other with something in front.
pub proof fn law_texts_begin_and_end(
    text: &str,
    other: &str,
    begins: bool,
    ends: bool,
    rest: Option<String>,
    more: Seq<char>,
)
    requires
        call_ensures(starts_with, (text, other), begins),
        call_ensures(ends_with, (text, other), ends),
        call_ensures(strip_prefix, (text, other), rest),
    ensures
        text@ == other@ + more ==> begins && (rest matches Some(rest) && rest@ == more),
        text@ == more + other@ ==> ends,
        begins ==> (rest matches Some(rest) && text@ == other@ + rest@),
        !begins ==> rest is None,
        ends ==> exists|front: Seq<char>| text@ == #[trigger] (front + other@),
{
    if text@ == other@ + more {
        assert(text@.take(other@.len() as int) =~= other@);
        assert(text@.skip(other@.len() as int) =~= more);
    }
    if text@ == more + other@ {
        assert(text@.skip(text@.len() - other@.len()) =~= other@);
    }
    if begins {
        assert(text@ =~= other@ + text@.skip(other@.len() as int));
    }
    if ends {
        let front = text@.take(text@.len() - other@.len());
        assert(text@ =~= front + other@);
    }
}

/// Of two texts the one comes first that has the smaller character where they part, or that ends there.
pub proof fn law_texts_are_ordered(left: &str, right: &str, earlier: bool, at: int)
    requires
        call_ensures(before, (left, right), earlier),
        0 <= at,
        at <= left@.len(),
        at <= right@.len(),
        left@.take(at) == right@.take(at),
        at < left@.len() && at < right@.len() ==> left@[at] != right@[at],
    ensures
        at < left@.len() && at < right@.len() ==> (earlier <==> left@[at] < right@[at]),
        at == left@.len() || at == right@.len() ==> (earlier <==> left@.len() < right@.len()),
{
    let first = left@.take(at);
    let second = right@.take(at);
    assert forall|i: int| 0 <= i < at implies left@[i] == right@[i] by {
        assert(first[i] == left@[i]);
        assert(second[i] == right@[i]);
    }
    if earlier {
        let found = choose|found: int| crate::text::parts_at(left@, right@, found);
        if found < at {
            assert(left@[found] == right@[found]);
        }
        if found > at {
            assert(left@[at] == right@[at]);
        }
    } else {
        if at < right@.len() && (at == left@.len() || left@[at] < right@[at]) {
            assert(crate::text::parts_at(left@, right@, at));
        }
    }
}

/// A failure is shown with what it followed from behind it.
pub proof fn law_failures_show_their_cause(failure: &Failure, text: String)
    requires
        call_ensures(Failure::chain, (failure,), text),
    ensures
        failure.cause is None ==> text@ == failure.message@,
        failure.cause matches Some(cause) ==> text@ == failure.message@ + seq![':', ' '] + cause@,
{
    reveal_strlit(": ");
    assert(": "@ =~= seq![':', ' ']);
}

} // verus!
