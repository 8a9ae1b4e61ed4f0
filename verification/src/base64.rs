//! Reading bytes that are spelled in base64.

use vstd::prelude::*;
use vstd::string::*;

use crate::text;

verus! {

/// The six bits that a character stands for.
pub open spec fn six_bits(c: char) -> Option<u32> {
    if 'A' <= c <= 'Z' {
        Some((c as u32 - 65) as u32)
    } else if 'a' <= c <= 'z' {
        Some((c as u32 - 71) as u32)
    } else if '0' <= c <= '9' {
        Some((c as u32 + 4) as u32)
    } else if c == '+' {
        Some(62)
    } else if c == '/' {
        Some(63)
    } else {
        None
    }
}

fn read_six(c: char) -> (bits: Option<u32>)
    ensures
        bits == six_bits(c),
        bits matches Some(value) ==> value < 64,
{
    if 'A' <= c && c <= 'Z' {
        Some(c as u32 - 65)
    } else if 'a' <= c && c <= 'z' {
        Some(c as u32 - 71)
    } else if '0' <= c && c <= '9' {
        Some(c as u32 + 4)
    } else if c == '+' {
        Some(62)
    } else if c == '/' {
        Some(63)
    } else {
        None
    }
}

/// The byte that two characters spell, which leave no bits over.
pub open spec fn one_byte(a: char, b: char) -> Option<Seq<u8>> {
    match (six_bits(a), six_bits(b)) {
        (Some(a), Some(b)) => if b % 16 == 0 {
            Some(seq![(a * 4 + b / 16) as u8])
        } else {
            None
        },
        _ => None,
    }
}

/// The two bytes that three characters spell, which leave no bits over.
pub open spec fn two_bytes(a: char, b: char, c: char) -> Option<Seq<u8>> {
    match (six_bits(a), six_bits(b), six_bits(c)) {
        (Some(a), Some(b), Some(c)) => if c % 4 == 0 {
            Some(seq![(a * 4 + b / 16) as u8, (b % 16 * 16 + c / 4) as u8])
        } else {
            None
        },
        _ => None,
    }
}

/// The three bytes that four characters spell.
pub open spec fn three_bytes(a: char, b: char, c: char, d: char) -> Option<Seq<u8>> {
    match (six_bits(a), six_bits(b), six_bits(c), six_bits(d)) {
        (Some(a), Some(b), Some(c), Some(d)) => Some(
            seq![
                (a * 4 + b / 16) as u8,
                (b % 16 * 16 + c / 4) as u8,
                (c % 4 * 64 + d) as u8,
            ],
        ),
        _ => None,
    }
}

/// The bytes that the last characters of a text spell, from two to four of them, with or without the
/// padding that fills them up to four.
pub open spec fn last_bytes(t: Seq<char>) -> Option<Seq<u8>> {
    if t.len() == 2 || (t.len() == 4 && t[2] == '=' && t[3] == '=') {
        one_byte(t[0], t[1])
    } else if t.len() == 3 || (t.len() == 4 && t[3] == '=') {
        two_bytes(t[0], t[1], t[2])
    } else if t.len() == 4 {
        three_bytes(t[0], t[1], t[2], t[3])
    } else {
        None
    }
}

/// The bytes that a text spells from a position on, after those gathered before.
pub open spec fn bytes_from(t: Seq<char>, at: int, gathered: Seq<u8>) -> Option<Seq<u8>>
    decreases t.len() - at,
{
    if t.len() - at <= 0 {
        Some(gathered)
    } else if t.len() - at <= 4 {
        match last_bytes(t.skip(at)) {
            Some(bytes) => Some(gathered + bytes),
            None => None,
        }
    } else {
        match three_bytes(t[at], t[at + 1], t[at + 2], t[at + 3]) {
            Some(bytes) => bytes_from(t, at + 4, gathered + bytes),
            None => None,
        }
    }
}

/// The bytes that a text spells, if it spells any.
pub open spec fn spelled_bytes(t: Seq<char>) -> Option<Seq<u8>> {
    bytes_from(t, 0, Seq::empty())
}

fn push_one(output: &mut Vec<u8>, a: char, b: char) -> (done: bool)
    ensures
        done == one_byte(a, b) is Some,
        one_byte(a, b) matches Some(bytes) ==> final(output)@ == old(output)@ + bytes,
{
    match (read_six(a), read_six(b)) {
        (Some(a), Some(b)) => {
            if b % 16 != 0 {
                return false;
            }
            output.push((a * 4 + b / 16) as u8);
            assert(output@ =~= old(output)@ + seq![(a * 4 + b / 16) as u8]);
            true
        },
        _ => false,
    }
}

fn push_two(output: &mut Vec<u8>, a: char, b: char, c: char) -> (done: bool)
    ensures
        done == two_bytes(a, b, c) is Some,
        two_bytes(a, b, c) matches Some(bytes) ==> final(output)@ == old(output)@ + bytes,
{
    match (read_six(a), read_six(b), read_six(c)) {
        (Some(a), Some(b), Some(c)) => {
            if c % 4 != 0 {
                return false;
            }
            output.push((a * 4 + b / 16) as u8);
            output.push((b % 16 * 16 + c / 4) as u8);
            assert(output@ =~= old(output)@ + seq![
                (a * 4 + b / 16) as u8,
                (b % 16 * 16 + c / 4) as u8,
            ]);
            true
        },
        _ => false,
    }
}

fn push_three(output: &mut Vec<u8>, a: char, b: char, c: char, d: char) -> (done: bool)
    ensures
        done == three_bytes(a, b, c, d) is Some,
        three_bytes(a, b, c, d) matches Some(bytes) ==> final(output)@ == old(output)@ + bytes,
{
    match (read_six(a), read_six(b), read_six(c), read_six(d)) {
        (Some(a), Some(b), Some(c), Some(d)) => {
            output.push((a * 4 + b / 16) as u8);
            output.push((b % 16 * 16 + c / 4) as u8);
            output.push((c % 4 * 64 + d) as u8);
            assert(output@ =~= old(output)@ + seq![
                (a * 4 + b / 16) as u8,
                (b % 16 * 16 + c / 4) as u8,
                (c % 4 * 64 + d) as u8,
            ]);
            true
        },
        _ => false,
    }
}

/// Reads the bytes that a text spells.
pub fn read_bytes(text: &str) -> (bytes: Option<Vec<u8>>)
    ensures
        match (bytes, spelled_bytes(text@)) {
            (Some(bytes), Some(expected)) => bytes@ == expected,
            (None, None) => true,
            _ => false,
        },
{
    let t = text::characters(text);
    let length: usize = t.len();
    let mut bytes: Vec<u8> = Vec::new();
    let mut at: usize = 0;
    assert(bytes@ =~= Seq::<u8>::empty());
    while length - at > 4
        invariant
            length == t@.len(),
            t@ == text@,
            at <= length,
            spelled_bytes(text@) == bytes_from(t@, at as int, bytes@),
        decreases length - at,
    {
        if !push_three(&mut bytes, t[at], t[at + 1], t[at + 2], t[at + 3]) {
            return None;
        }
        at = at + 4;
    }
    let left: usize = length - at;
    assert(left > 0 ==> t@.skip(at as int)[0] == t@[at as int]);
    if left == 0 {
        return Some(bytes);
    }
    let done = if left == 2 || (left == 4 && t[at + 2] == '=' && t[at + 3] == '=') {
        push_one(&mut bytes, t[at], t[at + 1])
    } else if left == 3 || (left == 4 && t[at + 3] == '=') {
        push_two(&mut bytes, t[at], t[at + 1], t[at + 2])
    } else if left == 4 {
        push_three(&mut bytes, t[at], t[at + 1], t[at + 2], t[at + 3])
    } else {
        false
    };
    if done {
        Some(bytes)
    } else {
        None
    }
}

} // verus!
