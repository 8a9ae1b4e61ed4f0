//! What is said of a regular expression is true of what it matches.

use vstd::prelude::*;

use crate::json_laws::{lemma_stands, stands};
use crate::pattern::{alternatives_take, nonempty_matches, part_takes, repetition};

verus! {

/// How often a part of a regular expression is matched.
pub enum Times {
    Once,
    AtMostOnce,
    AnyTimes,
    AtLeastOnce,
}

/// What a regular expression is made of: a character, the start of the text, or alternatives, each
/// of which is a row of such parts.
pub enum Atom {
    Plain(char),
    Start,
    Group(Seq<Seq<(Atom, Times)>>),
}

/// Whether a character stands for itself.
pub open spec fn is_plain(c: char) -> bool {
    c != '(' && c != ')' && c != '[' && c != '\\' && c != '^' && c != '$' && c != '*' && c != '+' && c
        != '?' && c != '{' && c != '|'
}

/// A part as it is written.
pub open spec fn written_atom(atom: Atom) -> Seq<char>
    decreases atom,
{
    match atom {
        Atom::Plain(c) => seq![c],
        Atom::Start => seq!['^'],
        Atom::Group(alternatives) => seq!['('] + (written_alternatives(alternatives) + seq![')']),
    }
}

/// How often a part is matched, as it is written behind the part.
pub open spec fn written_times(times: Times) -> Seq<char> {
    match times {
        Times::Once => Seq::empty(),
        Times::AtMostOnce => seq!['?'],
        Times::AnyTimes => seq!['*'],
        Times::AtLeastOnce => seq!['+'],
    }
}

/// A row of parts as it is written.
pub open spec fn written_row(row: Seq<(Atom, Times)>) -> Seq<char>
    decreases row,
{
    if row.len() == 0 {
        Seq::empty()
    } else {
        written_atom(row[0].0) + (written_times(row[0].1) + written_row(
            row.subrange(1, row.len() as int),
        ))
    }
}

/// Alternatives as they are written.
pub open spec fn written_alternatives(rows: Seq<Seq<(Atom, Times)>>) -> Seq<char>
    decreases rows,
{
    if rows.len() == 0 {
        Seq::empty()
    } else if rows.len() == 1 {
        written_row(rows[0])
    } else {
        written_row(rows[0]) + (seq!['|'] + written_alternatives(
            rows.subrange(1, rows.len() as int),
        ))
    }
}

/// Whether a part can match without taking a character of the text.
pub open spec fn takes_nothing(atom: Atom) -> bool
    decreases atom,
{
    match atom {
        Atom::Plain(_) => false,
        Atom::Start => true,
        Atom::Group(rows) => exists|i: int|
            0 <= i < rows.len() && row_takes_nothing(#[trigger] rows[i]),
    }
}

/// Whether a row of parts can match without taking a character of the text: each of them can, or
/// need not match at all.
pub open spec fn row_takes_nothing(row: Seq<(Atom, Times)>) -> bool
    decreases row,
{
    forall|i: int|
        0 <= i < row.len() ==> ((#[trigger] row[i]).1 is AtMostOnce || row[i].1 is AnyTimes
            || takes_nothing(row[i].0))
}

/// Whether a part below some groups can be written: its characters stand for themselves, each group
/// has an alternative, and groups nest no deeper than 64.
pub open spec fn is_writable(atom: Atom, depth: int) -> bool
    decreases atom,
{
    match atom {
        Atom::Plain(c) => is_plain(c),
        Atom::Start => true,
        Atom::Group(rows) => depth < 64 && rows.len() > 0 && forall|i: int|
            0 <= i < rows.len() ==> is_writable_row(#[trigger] rows[i], depth + 1),
    }
}

/// Whether a row of parts below some groups can be written.
pub open spec fn is_writable_row(row: Seq<(Atom, Times)>, depth: int) -> bool
    decreases row,
{
    forall|i: int| 0 <= i < row.len() ==> is_writable((#[trigger] row[i]).0, depth)
}

/// Whether no repetition is written at a position.
pub open spec fn is_clear(p: Seq<char>, at: int) -> bool {
    at == p.len() || (0 <= at < p.len() && p[at] != '*' && p[at] != '+' && p[at] != '?' && p[at]
        != '{')
}

proof fn lemma_atom(p: Seq<char>, at: int, atom: Atom, depth: int)
    requires
        0 <= depth,
        is_writable(atom, depth),
        stands(p, at, written_atom(atom)),
    ensures
        written_atom(atom).len() > 0,
        p[at] != '|' && p[at] != ')',
        is_clear(p, at),
        part_takes(p, at, depth) == Some((!takes_nothing(atom), at + written_atom(atom).len())),
    decreases atom, 0int,
{
    let w = written_atom(atom);
    assert(p[at + 0] == w[0]);
    if let Atom::Group(rows) = atom {
        let inner = written_alternatives(rows);
        lemma_stands(p, at, seq!['('], inner + seq![')']);
        lemma_stands(p, at + 1, inner, seq![')']);
        let end = at + 1 + inner.len();
        assert(p[end + 0] == seq![')'][0]);
        lemma_alternatives(p, at + 1, rows, depth + 1, true);
    }
}

proof fn lemma_row(
    p: Seq<char>,
    at: int,
    row: Seq<(Atom, Times)>,
    depth: int,
    always: bool,
    taken: bool,
)
    requires
        0 <= depth,
        is_writable_row(row, depth),
        stands(p, at, written_row(row)),
        is_clear(p, at + written_row(row).len()),
    ensures
        is_clear(p, at),
        alternatives_take(p, at, depth, always, taken) == alternatives_take(
            p,
            at + written_row(row).len(),
            depth,
            always,
            taken || !row_takes_nothing(row),
        ),
    decreases row, 0int,
{
    if row.len() == 0 {
        assert(row_takes_nothing(row));
    } else {
        let (atom, times) = row[0];
        let w = written_atom(atom);
        let m = written_times(times);
        let rest = row.subrange(1, row.len() as int);
        assert(is_writable(row[0].0, depth));
        lemma_stands(p, at, w, m + written_row(rest));
        lemma_stands(p, at + w.len(), m, written_row(rest));
        lemma_atom(p, at, atom, depth);
        if m.len() > 0 {
            assert(p[at + w.len() + 0] == m[0]);
        }
        assert forall|i: int| 0 <= i < rest.len() implies is_writable(
            (#[trigger] rest[i]).0,
            depth,
        ) by {
            assert(is_writable(row[i + 1].0, depth));
        }
        let next = at + w.len() + m.len();
        let kept = times is Once || times is AtLeastOnce;
        let takes = kept && !takes_nothing(atom);
        lemma_row(p, next, rest, depth, always, taken || takes);
        assert(repetition(p, at + w.len()) == Some((kept, next)));
        assert(row_takes_nothing(row) == (!takes && row_takes_nothing(rest))) by {
            lemma_row_takes(row);
        }
    }
}

proof fn lemma_row_takes(row: Seq<(Atom, Times)>)
    requires
        row.len() > 0,
    ensures
        row_takes_nothing(row) == ((row[0].1 is AtMostOnce || row[0].1 is AnyTimes || takes_nothing(
            row[0].0,
        )) && row_takes_nothing(row.subrange(1, row.len() as int))),
{
    let rest = row.subrange(1, row.len() as int);
    if row_takes_nothing(row) {
        assert forall|i: int| 0 <= i < rest.len() implies ((#[trigger] rest[i]).1 is AtMostOnce
            || rest[i].1 is AnyTimes || takes_nothing(rest[i].0)) by {
            assert(rest[i] == row[i + 1]);
        }
    } else {
        let i = choose|i: int|
            0 <= i < row.len() && !((#[trigger] row[i]).1 is AtMostOnce || row[i].1 is AnyTimes
                || takes_nothing(row[i].0));
        if i > 0 {
            assert(rest[i - 1] == row[i]);
        }
    }
}

proof fn lemma_alternatives(
    p: Seq<char>,
    at: int,
    rows: Seq<Seq<(Atom, Times)>>,
    depth: int,
    always: bool,
)
    requires
        0 <= depth,
        rows.len() > 0,
        forall|i: int| 0 <= i < rows.len() ==> is_writable_row(#[trigger] rows[i], depth),
        stands(p, at, written_alternatives(rows)),
        at + written_alternatives(rows).len() == p.len() || p[at + written_alternatives(rows).len()]
            == ')',
    ensures
        is_clear(p, at),
        alternatives_take(p, at, depth, always, false) == Some(
            (
                always && forall|i: int|
                    0 <= i < rows.len() ==> !row_takes_nothing(#[trigger] rows[i]),
                at + written_alternatives(rows).len(),
            ),
        ),
    decreases rows, 0int,
{
    let w = written_row(rows[0]);
    let taken = !row_takes_nothing(rows[0]);
    assert(is_writable_row(rows[0], depth));
    if rows.len() == 1 {
        lemma_row(p, at, rows[0], depth, always, false);
        if taken {
            assert forall|i: int| 0 <= i < rows.len() implies !row_takes_nothing(
                #[trigger] rows[i],
            ) by {
                assert(i == 0);
            }
        }
    } else {
        let rest = rows.subrange(1, rows.len() as int);
        lemma_stands(p, at, w, seq!['|'] + written_alternatives(rest));
        lemma_stands(p, at + w.len(), seq!['|'], written_alternatives(rest));
        assert(p[at + w.len() + 0] == seq!['|'][0]);
        lemma_row(p, at, rows[0], depth, always, false);
        assert forall|i: int| 0 <= i < rest.len() implies is_writable_row(
            #[trigger] rest[i],
            depth,
        ) by {
            assert(is_writable_row(rows[i + 1], depth));
        }
        lemma_alternatives(p, at + w.len() + 1, rest, depth, always && taken);
        let all = forall|i: int| 0 <= i < rows.len() ==> !row_takes_nothing(#[trigger] rows[i]);
        let others = forall|i: int| 0 <= i < rest.len() ==> !row_takes_nothing(#[trigger] rest[i]);
        if all {
            assert forall|i: int| 0 <= i < rest.len() implies !row_takes_nothing(
                #[trigger] rest[i],
            ) by {
                assert(rest[i] == rows[i + 1]);
            }
        } else if taken && others {
            let i = choose|i: int| 0 <= i < rows.len() && row_takes_nothing(#[trigger] rows[i]);
            assert(i > 0);
            assert(rest[i - 1] == rows[i]);
        }
        assert(all == (taken && others));
    }
}

/// A regular expression of characters, starts, groups, alternatives and repetitions is said to match
/// no empty text exactly if none of its alternatives does.
pub proof fn law_empty_matches_are_found(
    pattern: &str,
    rows: Seq<Seq<(Atom, Times)>>,
    nonempty: bool,
)
    requires
        rows.len() > 0,
        forall|i: int| 0 <= i < rows.len() ==> is_writable_row(#[trigger] rows[i], 0),
        pattern@ == written_alternatives(rows),
        call_ensures(nonempty_matches, (pattern,), nonempty),
    ensures
        nonempty <==> forall|i: int|
            0 <= i < rows.len() ==> !row_takes_nothing(#[trigger] rows[i]),
{
    lemma_alternatives(pattern@, 0, rows, 0, true);
}

} // verus!
