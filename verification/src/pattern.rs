//! Which regular expressions cannot match the empty text.
//!
//! The answer errs on one side: of a pattern with a construct that is not known here, nothing is
//! claimed.

use vstd::prelude::*;
use vstd::string::*;

use crate::text;

verus! {

/// How deep groups may nest.
pub const MAX_GROUPS: usize = 64;

/// Where a character first stands from a position on.
pub open spec fn next_of(p: Seq<char>, at: int, c: char) -> Option<int>
    decreases p.len() - at,
{
    if at < 0 || at >= p.len() {
        None
    } else if p[at] == c {
        Some(at)
    } else {
        next_of(p, at + 1, c)
    }
}

/// Finds where a character first stands from a position on.
pub fn find_next(p: &Vec<char>, at: usize, c: char) -> (found: Option<usize>)
    requires
        at <= p@.len(),
    ensures
        match (found, next_of(p@, at as int, c)) {
            (Some(found), Some(expected)) => found == expected && at <= found < p@.len(),
            (None, None) => true,
            _ => false,
        },
{
    let mut found: usize = at;
    while found < p.len()
        invariant
            at <= found <= p@.len(),
            next_of(p@, at as int, c) == next_of(p@, found as int, c),
        decreases p@.len() - found,
    {
        if p[found] == c {
            return Some(found);
        }
        found = found + 1;
    }
    None
}

/// Where a bracketed class ends, whose members go on at a position, below `nest` classes that it
/// stands in.
pub open spec fn class_end(p: Seq<char>, at: int, nest: int) -> Option<int>
    decreases p.len() - at,
{
    if at < 0 || at >= p.len() {
        None
    } else if p[at] == '[' {
        class_end(p, at + 1, nest + 1)
    } else if p[at] == ']' {
        if nest <= 0 {
            Some(at + 1)
        } else {
            class_end(p, at + 1, nest - 1)
        }
    } else if p[at] == '\\' {
        if at + 2 > p.len() {
            None
        } else {
            class_end(p, at + 2, nest)
        }
    } else {
        class_end(p, at + 1, nest)
    }
}

/// Where the members of a bracketed class begin, after what stands for itself at its start.
pub open spec fn class_start(p: Seq<char>, at: int) -> int {
    let first = if at < p.len() && p[at] == '^' {
        at + 1
    } else {
        at
    };
    if first < p.len() && p[first] == ']' {
        first + 1
    } else {
        first
    }
}

fn skip_class(p: &Vec<char>, at: usize) -> (end: Option<usize>)
    requires
        at <= p@.len(),
    ensures
        match (end, class_end(p@, class_start(p@, at as int), 0)) {
            (Some(end), Some(expected)) => end == expected && at < end <= p@.len(),
            (None, None) => true,
            _ => false,
        },
{
    let mut end: usize = at;
    if end < p.len() && p[end] == '^' {
        end = end + 1;
    }
    if end < p.len() && p[end] == ']' {
        end = end + 1;
    }
    let mut nest: usize = 0;
    while end < p.len()
        invariant
            at <= end <= p@.len(),
            nest <= end,
            class_end(p@, class_start(p@, at as int), 0) == class_end(p@, end as int, nest as int),
        decreases p@.len() - end,
    {
        if p[end] == '\\' {
            if p.len() - end < 2 {
                return None;
            }
            end = end + 2;
        } else {
            if p[end] == '[' {
                nest = nest + 1;
            } else if p[end] == ']' {
                if nest == 0 {
                    return Some(end + 1);
                }
                nest = nest - 1;
            }
            end = end + 1;
        }
    }
    None
}

/// Whether an escaped letter stands for one character of some kind.
pub open spec fn is_class_letter(c: char) -> bool {
    c == 'd' || c == 'D' || c == 's' || c == 'S' || c == 'w' || c == 'W' || c == 'h' || c == 'H' || c
        == 'n' || c == 'r' || c == 't' || c == 'a' || c == 'e' || c == 'f' || c == 'v' || c == 'O'
}

/// Whether a character is an ASCII letter or digit.
pub open spec fn is_alphanumeric(c: char) -> bool {
    ('0' <= c <= '9') || ('A' <= c <= 'Z') || ('a' <= c <= 'z')
}

/// Whether an escape, whose first character after the backslash is at a position, always takes a
/// character of the text, and where it ends.
pub open spec fn escape_takes(p: Seq<char>, at: int) -> Option<(bool, int)> {
    if at >= p.len() {
        None
    } else if is_class_letter(p[at]) || (!is_alphanumeric(p[at]) && p[at] != '<' && p[at] != '>') {
        Some((true, at + 1))
    } else if p[at] == 'A' || p[at] == 'z' || p[at] == 'Z' || p[at] == 'G' {
        Some((false, at + 1))
    } else if '0' <= p[at] <= '9' {
        Some((false, digits_end(p, at + 1)))
    } else if (p[at] == 'b' || p[at] == 'B') && !(at + 1 < p.len() && p[at + 1] == '{') {
        Some((false, at + 1))
    } else if (p[at] == 'p' || p[at] == 'P' || p[at] == 'x' || p[at] == 'u' || p[at] == 'U') && at + 1 < p.len()
        && p[at + 1] == '{' {
        match next_of(p, at + 2, '}') {
            Some(end) => Some((true, end + 1)),
            None => None,
        }
    } else if p[at] == 'p' || p[at] == 'P' {
        if at + 2 <= p.len() {
            Some((true, at + 2))
        } else {
            None
        }
    } else if p[at] == 'x' && at + 3 <= p.len() {
        Some((true, at + 3))
    } else if p[at] == 'u' && at + 5 <= p.len() {
        Some((true, at + 5))
    } else if p[at] == 'U' && at + 9 <= p.len() {
        Some((true, at + 9))
    } else {
        None
    }
}

fn alphanumeric(c: char) -> (b: bool)
    ensures
        b == is_alphanumeric(c),
{
    ('0' <= c && c <= '9') || ('A' <= c && c <= 'Z') || ('a' <= c && c <= 'z')
}

fn read_escape(p: &Vec<char>, at: usize) -> (read: Option<(bool, usize)>)
    requires
        at <= p@.len(),
    ensures
        match (read, escape_takes(p@, at as int)) {
            (Some((takes, end)), Some(expected)) => takes == expected.0 && end == expected.1 && at
                < end <= p@.len(),
            (None, None) => true,
            _ => false,
        },
{
    if at >= p.len() {
        return None;
    }
    let left: usize = p.len() - at;
    let c = p[at];
    let letter = c == 'd' || c == 'D' || c == 's' || c == 'S' || c == 'w' || c == 'W' || c == 'h' || c
        == 'H' || c == 'n' || c == 'r' || c == 't' || c == 'a' || c == 'e' || c == 'f' || c == 'v'
        || c == 'O';
    if letter || (!alphanumeric(c) && c != '<' && c != '>') {
        return Some((true, at + 1));
    }
    if c == 'A' || c == 'z' || c == 'Z' || c == 'G' {
        return Some((false, at + 1));
    }
    if '0' <= c && c <= '9' {
        return Some((false, skip_digits(p, at + 1).0));
    }
    let braced = left > 1 && p[at + 1] == '{';
    if (c == 'b' || c == 'B') && !braced {
        return Some((false, at + 1));
    }
    if (c == 'p' || c == 'P' || c == 'x' || c == 'u' || c == 'U') && braced {
        return match find_next(p, at + 2, '}') {
            Some(end) => Some((true, end + 1)),
            None => None,
        };
    }
    if c == 'p' || c == 'P' {
        if left >= 2 {
            Some((true, at + 2))
        } else {
            None
        }
    } else if c == 'x' && left >= 3 {
        Some((true, at + 3))
    } else if c == 'u' && left >= 5 {
        Some((true, at + 5))
    } else if c == 'U' && left >= 9 {
        Some((true, at + 9))
    } else {
        None
    }
}

/// Where the decimal digits end that begin at a position.
pub open spec fn digits_end(p: Seq<char>, at: int) -> int
    decreases p.len() - at,
{
    if 0 <= at < p.len() && '0' <= p[at] <= '9' {
        digits_end(p, at + 1)
    } else {
        at
    }
}

/// Whether a digit other than zero stands among those that end at a position.
pub open spec fn is_positive(p: Seq<char>, at: int, end: int) -> bool {
    exists|i: int| at <= i < end && #[trigger] p[i] != '0'
}

fn skip_digits(p: &Vec<char>, at: usize) -> (read: (usize, bool))
    requires
        at <= p@.len(),
    ensures
        read.0 == digits_end(p@, at as int),
        read.1 == is_positive(p@, at as int, read.0 as int),
        at <= read.0 <= p@.len(),
{
    let mut end: usize = at;
    let mut positive = false;
    while end < p.len() && '0' <= p[end] && p[end] <= '9'
        invariant
            at <= end <= p@.len(),
            digits_end(p@, at as int) == digits_end(p@, end as int),
            positive == is_positive(p@, at as int, end as int),
        decreases p@.len() - end,
    {
        if p[end] != '0' {
            positive = true;
        }
        end = end + 1;
    }
    (end, positive)
}

/// Where a mark ends that makes a repetition lazy or possessive.
pub open spec fn mark_end(p: Seq<char>, at: int) -> int {
    if at < p.len() && (p[at] == '?' || p[at] == '+') {
        at + 1
    } else {
        at
    }
}

/// Whether what stands before a position is repeated at least once, and where the repetition ends.
pub open spec fn repetition(p: Seq<char>, at: int) -> Option<(bool, int)> {
    if at >= p.len() {
        Some((true, at))
    } else if p[at] == '*' || p[at] == '?' {
        Some((false, mark_end(p, at + 1)))
    } else if p[at] == '+' {
        Some((true, mark_end(p, at + 1)))
    } else if p[at] == '{' {
        let low = digits_end(p, at + 1);
        let high = if low < p.len() && p[low] == ',' {
            digits_end(p, low + 1)
        } else {
            low
        };
        if high >= p.len() || p[high] != '}' {
            None
        } else {
            Some((is_positive(p, at + 1, low), mark_end(p, high + 1)))
        }
    } else {
        Some((true, at))
    }
}

fn skip_mark(p: &Vec<char>, at: usize) -> (end: usize)
    requires
        at <= p@.len(),
    ensures
        end == mark_end(p@, at as int),
        at <= end <= p@.len(),
{
    if at < p.len() && (p[at] == '?' || p[at] == '+') {
        at + 1
    } else {
        at
    }
}

fn read_repetition(p: &Vec<char>, at: usize) -> (read: Option<(bool, usize)>)
    requires
        at <= p@.len(),
    ensures
        match (read, repetition(p@, at as int)) {
            (Some((kept, end)), Some(expected)) => kept == expected.0 && end == expected.1 && at
                <= end <= p@.len(),
            (None, None) => true,
            _ => false,
        },
{
    if at >= p.len() {
        return Some((true, at));
    }
    let c = p[at];
    if c == '*' || c == '?' {
        Some((false, skip_mark(p, at + 1)))
    } else if c == '+' {
        Some((true, skip_mark(p, at + 1)))
    } else if c == '{' {
        let (low, positive) = skip_digits(p, at + 1);
        let high: usize = if low < p.len() && p[low] == ',' {
            skip_digits(p, low + 1).0
        } else {
            low
        };
        if high >= p.len() || p[high] != '}' {
            None
        } else {
            Some((positive, skip_mark(p, high + 1)))
        }
    } else {
        Some((true, at))
    }
}

/// Where the flags of a group end that begin at a position. The flag by which white space loses its
/// meaning is not among them.
pub open spec fn flags_end(p: Seq<char>, at: int) -> int
    decreases p.len() - at,
{
    if 0 <= at < p.len() && (p[at] == 'i' || p[at] == 'm' || p[at] == 's' || p[at] == 'u' || p[at]
        == 'U' || p[at] == '-') {
        flags_end(p, at + 1)
    } else {
        at
    }
}

fn skip_flags(p: &Vec<char>, at: usize) -> (end: usize)
    requires
        at <= p@.len(),
    ensures
        end == flags_end(p@, at as int),
        at <= end <= p@.len(),
{
    let mut end: usize = at;
    while end < p.len() && (p[end] == 'i' || p[end] == 'm' || p[end] == 's' || p[end] == 'u' || p[end]
        == 'U' || p[end] == '-')
        invariant
            at <= end <= p@.len(),
            flags_end(p@, at as int) == flags_end(p@, end as int),
        decreases p@.len() - end,
    {
        end = end + 1;
    }
    end
}

/// Where the alternatives of a group begin, whose opening parenthesis is just before a position, and
/// whether the group takes what they match. A group of flags alone has none.
pub open spec fn group_start(p: Seq<char>, at: int) -> Option<(bool, int)> {
    if at < p.len() && p[at] == '*' {
        None
    } else if at >= p.len() || p[at] != '?' {
        Some((true, at))
    } else if at + 1 >= p.len() {
        None
    } else if p[at + 1] == '>' {
        Some((true, at + 2))
    } else if p[at + 1] == '=' || p[at + 1] == '!' {
        Some((false, at + 2))
    } else if p[at + 1] == '<' {
        if at + 2 < p.len() && (p[at + 2] == '=' || p[at + 2] == '!') {
            Some((false, at + 3))
        } else {
            match next_of(p, at + 2, '>') {
                Some(end) => Some((true, end + 1)),
                None => None,
            }
        }
    } else if p[at + 1] == 'P' && at + 2 < p.len() && p[at + 2] == '<' {
        match next_of(p, at + 3, '>') {
            Some(end) => Some((true, end + 1)),
            None => None,
        }
    } else {
        let end = flags_end(p, at + 1);
        if end < p.len() && p[end] == ':' {
            Some((true, end + 1))
        } else if end < p.len() && p[end] == ')' {
            Some((true, end))
        } else {
            None
        }
    }
}

fn read_group_start(p: &Vec<char>, at: usize) -> (read: Option<(bool, usize)>)
    requires
        at <= p@.len(),
    ensures
        match (read, group_start(p@, at as int)) {
            (Some((takes, start)), Some(expected)) => takes == expected.0 && start == expected.1 && at
                <= start <= p@.len(),
            (None, None) => true,
            _ => false,
        },
{
    let left: usize = p.len() - at;
    if left > 0 && p[at] == '*' {
        return None;
    }
    if left == 0 || p[at] != '?' {
        return Some((true, at));
    }
    if left == 1 {
        return None;
    }
    let c = p[at + 1];
    if c == '>' {
        Some((true, at + 2))
    } else if c == '=' || c == '!' {
        Some((false, at + 2))
    } else if c == '<' {
        if left > 2 && (p[at + 2] == '=' || p[at + 2] == '!') {
            Some((false, at + 3))
        } else {
            match find_next(p, at + 2, '>') {
                Some(end) => Some((true, end + 1)),
                None => None,
            }
        }
    } else if c == 'P' && left > 2 && p[at + 2] == '<' {
        match find_next(p, at + 3, '>') {
            Some(end) => Some((true, end + 1)),
            None => None,
        }
    } else {
        let end: usize = skip_flags(p, at + 1);
        if end < p.len() && p[end] == ':' {
            Some((true, end + 1))
        } else if end < p.len() && p[end] == ')' {
            Some((true, end))
        } else {
            None
        }
    }
}

/// Whether the part of a pattern that begins at a position, below `depth` groups, always takes a
/// character of the text, and where it ends.
pub open spec fn part_takes(p: Seq<char>, at: int, depth: int) -> Option<(bool, int)>
    decreases p.len() - at, 0int,
{
    if at < 0 || at >= p.len() {
        None
    } else if p[at] == '(' {
        match group_start(p, at + 1) {
            Some((takes, start)) => if depth >= MAX_GROUPS || start <= at || start > p.len() {
                None
            } else {
                match alternatives_take(p, start, depth + 1, true, false) {
                    Some((always, end)) => if end < p.len() {
                        Some((takes && always, end + 1))
                    } else {
                        None
                    },
                    None => None,
                }
            },
            None => None,
        }
    } else if p[at] == '[' {
        match class_end(p, class_start(p, at + 1), 0) {
            Some(end) => Some((true, end)),
            None => None,
        }
    } else if p[at] == '\\' {
        escape_takes(p, at + 1)
    } else if p[at] == '^' || p[at] == '$' {
        Some((false, at + 1))
    } else if p[at] == '*' || p[at] == '+' || p[at] == '?' || p[at] == '{' {
        None
    } else {
        Some((true, at + 1))
    }
}

/// Whether each of the alternatives that go on at a position always takes a character of the text,
/// and where they end: `always` says so of those before, `taken` of the parts before.
pub open spec fn alternatives_take(
    p: Seq<char>,
    at: int,
    depth: int,
    always: bool,
    taken: bool,
) -> Option<(bool, int)>
    decreases p.len() - at, 1int,
{
    if at < 0 || at >= p.len() || p[at] == ')' {
        Some((always && taken, at))
    } else if p[at] == '|' {
        alternatives_take(p, at + 1, depth, always && taken, false)
    } else {
        match part_takes(p, at, depth) {
            Some((takes, end)) => match repetition(p, end) {
                Some((kept, next)) => if next <= at || next > p.len() {
                    None
                } else {
                    alternatives_take(p, next, depth, always, taken || (takes && kept))
                },
                None => None,
            },
            None => None,
        }
    }
}

fn read_part(p: &Vec<char>, at: usize, depth: usize) -> (read: Option<(bool, usize)>)
    requires
        at <= p@.len(),
    ensures
        match (read, part_takes(p@, at as int, depth as int)) {
            (Some((takes, end)), Some(expected)) => takes == expected.0 && end == expected.1 && at
                < end <= p@.len(),
            (None, None) => true,
            _ => false,
        },
    decreases p@.len() - at, 0int,
{
    if at >= p.len() {
        return None;
    }
    let c = p[at];
    if c == '(' {
        match read_group_start(p, at + 1) {
            Some((takes, start)) => {
                if depth >= MAX_GROUPS {
                    return None;
                }
                match read_alternatives(p, start, depth + 1) {
                    Some((always, end)) => if end < p.len() {
                        Some((takes && always, end + 1))
                    } else {
                        None
                    },
                    None => None,
                }
            },
            None => None,
        }
    } else if c == '[' {
        match skip_class(p, at + 1) {
            Some(end) => Some((true, end)),
            None => None,
        }
    } else if c == '\\' {
        read_escape(p, at + 1)
    } else if c == '^' || c == '$' {
        Some((false, at + 1))
    } else if c == '*' || c == '+' || c == '?' || c == '{' {
        None
    } else {
        Some((true, at + 1))
    }
}

fn read_alternatives(p: &Vec<char>, at: usize, depth: usize) -> (read: Option<(bool, usize)>)
    requires
        at <= p@.len(),
    ensures
        match (read, alternatives_take(p@, at as int, depth as int, true, false)) {
            (Some((always, end)), Some(expected)) => always == expected.0 && end == expected.1 && at
                <= end <= p@.len(),
            (None, None) => true,
            _ => false,
        },
    decreases p@.len() - at, 1int,
{
    let mut next: usize = at;
    let mut always = true;
    let mut taken = false;
    while next < p.len() && p[next] != ')'
        invariant
            at <= next <= p@.len(),
            alternatives_take(p@, at as int, depth as int, true, false) == alternatives_take(
                p@,
                next as int,
                depth as int,
                always,
                taken,
            ),
        decreases p@.len() - next,
    {
        if p[next] == '|' {
            always = always && taken;
            taken = false;
            next = next + 1;
        } else {
            match read_part(p, next, depth) {
                Some((takes, end)) => match read_repetition(p, end) {
                    Some((kept, after)) => {
                        taken = taken || (takes && kept);
                        next = after;
                    },
                    None => return None,
                },
                None => return None,
            }
        }
    }
    Some((always && taken, next))
}

/// Whether a regular expression is known to match no empty text.
pub open spec fn matches_something(p: Seq<char>) -> bool {
    alternatives_take(p, 0, 0, true, false) == Some((true, p.len() as int))
}

/// Tells whether a regular expression is known to match no empty text.
pub fn nonempty_matches(pattern: &str) -> (b: bool)
    ensures
        b == matches_something(pattern@),
{
    let p = text::characters(pattern);
    match read_alternatives(&p, 0, 0) {
        Some((always, end)) => always && end == p.len(),
        None => false,
    }
}

} // verus!
