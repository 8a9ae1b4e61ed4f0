//! Texts of several lines.

use vstd::prelude::*;
use vstd::slice::slice_subrange;

use crate::names::text_views;
use crate::text;

verus! {

/// Where the first line of a text ends.
pub open spec fn line_end(text: Seq<char>) -> int
    decreases text.len(),
{
    if text.len() == 0 || text[0] == '\n' {
        0
    } else {
        1 + line_end(text.drop_first())
    }
}

/// The end of the first line lies within the text.
pub proof fn lemma_line_end(text: Seq<char>)
    ensures
        0 <= line_end(text) <= text.len(),
    decreases text.len(),
{
    if text.len() > 0 && text[0] != '\n' {
        lemma_line_end(text.drop_first());
    }
}

/// A line without the carriage return at its end.
pub open spec fn without_return(line: Seq<char>) -> Seq<char> {
    if line.len() > 0 && line.last() == '\r' {
        line.drop_last()
    } else {
        line
    }
}

/// The lines of a text that are not empty.
pub open spec fn filled_lines(text: Seq<char>) -> Seq<Seq<char>>
    decreases text.len(),
{
    let end = line_end(text);
    if end == text.len() {
        if text.len() == 0 {
            Seq::empty()
        } else {
            seq![text]
        }
    } else {
        proof {
            lemma_line_end(text);
        }
        let line = without_return(text.take(end));
        let rest = filled_lines(text.skip(end + 1));
        if line.len() == 0 {
            rest
        } else {
            seq![line] + rest
        }
    }
}

/// The lines of a text that are not empty.
pub fn split_lines(text: &str) -> (lines: Vec<String>)
    ensures
        text_views(lines@) == filled_lines(text@),
{
    let chars = text::characters(text);
    let mut lines: Vec<String> = Vec::new();
    let mut start: usize = 0;
    assert(text@.skip(0) =~= text@);
    assert(text_views(lines@) + filled_lines(text@) =~= filled_lines(text@));
    loop
        invariant
            chars@ == text@,
            start <= chars@.len(),
            text_views(lines@) + filled_lines(text@.skip(start as int)) == filled_lines(text@),
        decreases chars@.len() - start,
    {
        let ghost rest = text@.skip(start as int);
        let mut end: usize = start;
        assert(text@.skip(end as int) =~= rest);
        while end < chars.len() && chars[end] != '\n'
            invariant
                chars@ == text@,
                start <= end <= chars@.len(),
                rest == text@.skip(start as int),
                line_end(rest) == (end - start) + line_end(text@.skip(end as int)),
            decreases chars@.len() - end,
        {
            assert(text@.skip(end as int).drop_first() =~= text@.skip(end + 1));
            end = end + 1;
        }
        assert(line_end(text@.skip(end as int)) == 0);
        let ghost before = text_views(lines@);
        if end == chars.len() {
            if start < end {
                let line = text::from_characters(slice_subrange(chars.as_slice(), start, end));
                lines.push(line);
                proof {
                    assert(line@ =~= rest);
                    assert(text_views(lines@) =~= before.push(rest));
                    assert(before + seq![rest] =~= before.push(rest));
                }
            } else {
                assert(rest =~= Seq::<char>::empty());
                assert(before + Seq::<Seq<char>>::empty() =~= before);
            }
            return lines;
        }
        let stop: usize = if end > start && chars[end - 1] == '\r' {
            end - 1
        } else {
            end
        };
        proof {
            assert(rest.take(end - start) =~= text@.subrange(start as int, end as int));
            assert(without_return(rest.take(end - start)) =~= text@.subrange(
                start as int,
                stop as int,
            ));
            assert(rest.skip(end - start + 1) =~= text@.skip(end + 1));
        }
        if start < stop {
            let line = text::from_characters(slice_subrange(chars.as_slice(), start, stop));
            lines.push(line);
            proof {
                let tail = filled_lines(text@.skip(end + 1));
                assert(text_views(lines@) =~= before.push(line@));
                assert(before + (seq![line@] + tail) =~= before.push(line@) + tail);
            }
        }
        start = end + 1;
    }
}

/// Where a text is first split by a colon: the number of its characters where it has none.
pub open spec fn colon_position(line: Seq<char>) -> int
    decreases line.len(),
{
    if line.len() == 0 || line[0] == ':' {
        0
    } else {
        1 + colon_position(line.drop_first())
    }
}

/// Where the first word of a text starts: the number of its characters where it has none.
pub open spec fn word_start(line: Seq<char>) -> int
    decreases line.len(),
{
    if line.len() == 0 || !text::is_whitespace(line[0]) {
        0
    } else {
        1 + word_start(line.drop_first())
    }
}

/// How long the word at the start of a text is.
pub open spec fn word_length(line: Seq<char>) -> int
    decreases line.len(),
{
    if line.len() == 0 || text::is_whitespace(line[0]) {
        0
    } else {
        1 + word_length(line.drop_first())
    }
}

/// The first word of a text, if it has one.
pub open spec fn first_word(line: Seq<char>) -> Option<Seq<char>> {
    let rest = line.skip(word_start(line));
    if rest.len() == 0 {
        None
    } else {
        Some(rest.take(word_length(rest)))
    }
}

/// The first word behind a name and a colon, where the line begins with them.
pub open spec fn named_word(line: Seq<char>, name: Seq<char>) -> Option<Seq<char>> {
    let colon = colon_position(line);
    if colon < line.len() && line.take(colon) == name {
        first_word(line.skip(colon + 1))
    } else {
        None
    }
}

/// The first words behind a name and a colon, line by line.
pub open spec fn named_words(lines: Seq<Seq<char>>, name: Seq<char>) -> Seq<Seq<char>>
    decreases lines.len(),
{
    if lines.len() == 0 {
        Seq::empty()
    } else {
        let earlier = named_words(lines.drop_last(), name);
        match named_word(lines.last(), name) {
            Some(word) => earlier.push(word),
            None => earlier,
        }
    }
}

fn find_word(line: &str, name: &str) -> (word: Option<String>)
    ensures
        text::optional(word) == named_word(line@, name@),
{
    let chars = text::characters(line);
    let mut colon: usize = 0;
    assert(line@.skip(0) =~= line@);
    while colon < chars.len() && chars[colon] != ':'
        invariant
            chars@ == line@,
            colon <= chars@.len(),
            colon_position(line@) == colon + colon_position(line@.skip(colon as int)),
        decreases chars@.len() - colon,
    {
        assert(line@.skip(colon as int).drop_first() =~= line@.skip(colon + 1));
        colon = colon + 1;
    }
    if colon == chars.len() {
        return None;
    }
    let found = text::from_characters(slice_subrange(chars.as_slice(), 0, colon));
    assert(found@ =~= line@.take(colon as int));
    if !text::same(found.as_str(), name) {
        return None;
    }
    let ghost rest = line@.skip(colon + 1);
    let mut start: usize = colon + 1;
    assert(rest.skip(0) =~= rest);
    while start < chars.len() && text::whitespace(chars[start])
        invariant
            chars@ == line@,
            colon < start <= chars@.len(),
            rest == line@.skip(colon + 1),
            word_start(rest) == (start - colon - 1) + word_start(rest.skip(start - colon - 1)),
        decreases chars@.len() - start,
    {
        assert(rest.skip(start - colon - 1).drop_first() =~= rest.skip(start - colon));
        start = start + 1;
    }
    let ghost word = rest.skip(start - colon - 1);
    assert(word =~= line@.skip(start as int));
    if start == chars.len() {
        return None;
    }
    let mut end: usize = start;
    assert(word.skip(0) =~= word);
    while end < chars.len() && !text::whitespace(chars[end])
        invariant
            chars@ == line@,
            start <= end <= chars@.len(),
            word == line@.skip(start as int),
            word_length(word) == (end - start) + word_length(word.skip(end - start)),
        decreases chars@.len() - end,
    {
        assert(word.skip(end - start).drop_first() =~= word.skip(end - start + 1));
        end = end + 1;
    }
    let result = text::from_characters(slice_subrange(chars.as_slice(), start, end));
    assert(result@ =~= word.take(end - start));
    Some(result)
}

/// The first words behind a name and a colon, such as the sizes in a list of named sizes.
pub fn values_named(text: &str, name: &str) -> (words: Vec<String>)
    ensures
        text_views(words@) == named_words(filled_lines(text@), name@),
{
    let lines = split_lines(text);
    let ghost views = text_views(lines@);
    let mut words: Vec<String> = Vec::new();
    let mut position: usize = 0;
    assert(views.take(0) =~= Seq::<Seq<char>>::empty());
    assert(text_views(words@) =~= Seq::<Seq<char>>::empty());
    while position < lines.len()
        invariant
            views == text_views(lines@),
            position <= lines@.len(),
            text_views(words@) == named_words(views.take(position as int), name@),
        decreases lines@.len() - position,
    {
        let line = &lines[position];
        proof {
            let next = views.take(position + 1);
            assert(next.drop_last() =~= views.take(position as int));
            assert(next.last() == line@);
        }
        if let Some(word) = find_word(line.as_str(), name) {
            let ghost before = text_views(words@);
            words.push(word);
            assert(text_views(words@) =~= before.push(word@));
        }
        position = position + 1;
    }
    assert(views.take(position as int) =~= views);
    words
}

} // verus!
