//! What lines and words are, in terms of the characters of a text.

use vstd::prelude::*;
use vstd::string::*;

use crate::lines::{
    colon_position, filled_lines, lemma_line_end, line_end, named_word, named_words, split_lines,
    values_named, without_return, word_length, word_start,
};
use crate::names::text_views;
use crate::text;

verus! {

/// Whether a line of a text stands from `start` to `end`.
pub open spec fn is_line(all: Seq<char>, start: int, end: int) -> bool {
    &&& 0 <= start <= end <= all.len()
    &&& start == 0 || all[start - 1] == '\n'
    &&& end == all.len() || all[end] == '\n'
    &&& forall|i: int| start <= i < end ==> all[i] != '\n'
}

/// What a line says: its characters, without a carriage return that belongs to its end.
pub open spec fn line_content(all: Seq<char>, start: int, end: int) -> Seq<char> {
    if start < end < all.len() && all[end - 1] == '\r' {
        all.subrange(start, end - 1)
    } else {
        all.subrange(start, end)
    }
}

/// Whether lines of a text that say something stand at the places given, one after the other, and are
/// all that there are.
pub open spec fn are_lines(all: Seq<char>, lines: Seq<Seq<char>>, places: Seq<(int, int)>) -> bool {
    &&& places.len() == lines.len()
    &&& forall|i: int|
        0 <= i < places.len() ==> is_line(all, (#[trigger] places[i]).0, places[i].1)
            && line_content(all, places[i].0, places[i].1) == lines[i] && lines[i].len() > 0
    &&& forall|i: int, j: int|
        0 <= i < j < places.len() ==> (#[trigger] places[i]).1 < (#[trigger] places[j]).0
    &&& forall|start: int, end: int|
        #[trigger] is_line(all, start, end) && line_content(all, start, end).len() > 0
            ==> places.contains((start, end))
}

proof fn lemma_first_line(all: Seq<char>)
    ensures
        is_line(all, 0, line_end(all)),
    decreases all.len(),
{
    if all.len() > 0 && all[0] != '\n' {
        let rest = all.drop_first();
        lemma_first_line(rest);
        assert forall|i: int| 0 <= i < line_end(all) implies all[i] != '\n' by {
            if i > 0 {
                assert(rest[i - 1] == all[i]);
            }
        }
    }
}

proof fn lemma_lines(all: Seq<char>) -> (places: Seq<(int, int)>)
    ensures
        are_lines(all, filled_lines(all), places),
    decreases all.len(),
{
    lemma_line_end(all);
    lemma_first_line(all);
    let first = line_end(all);
    if first == all.len() {
        let places = if all.len() == 0 {
            Seq::empty()
        } else {
            seq![(0int, all.len() as int)]
        };
        assert(all.subrange(0, all.len() as int) =~= all);
        assert forall|start: int, end: int|
            #[trigger] is_line(all, start, end) && line_content(all, start, end).len()
                > 0 implies places.contains((start, end)) by {
            if start > 0 {
                assert(all[start - 1] != '\n');
            }
            if end < all.len() {
                assert(all[end] != '\n');
            }
            assert(places[0] == (start, end));
        }
        places
    } else {
        let offset = first + 1;
        let rest = all.skip(offset);
        let later = lemma_lines(rest);
        let shifted = later.map_values(|place: (int, int)| (place.0 + offset, place.1 + offset));
        let line = without_return(all.take(first));
        if first > 0 {
            assert(all.take(first).last() == all[first - 1]);
        }
        assert(line =~= line_content(all, 0, first));
        let places = if line.len() == 0 {
            shifted
        } else {
            seq![(0int, first)] + shifted
        };
        let skipped: int = if line.len() == 0 {
            0
        } else {
            1
        };
        assert forall|start: int, end: int| start >= 0 implies #[trigger] is_line(
            rest,
            start,
            end,
        ) == is_line(all, start + offset, end + offset) && (is_line(rest, start, end)
            ==> line_content(rest, start, end) == line_content(
            all,
            start + offset,
            end + offset,
        )) by {
            if is_line(rest, start, end) {
                assert forall|i: int| start + offset <= i < end + offset implies all[i] != '\n' by {
                    assert(rest[i - offset] != '\n');
                }
                assert(rest.subrange(start, end) =~= all.subrange(start + offset, end + offset));
                assert(line_content(rest, start, end) =~= line_content(
                    all,
                    start + offset,
                    end + offset,
                ));
            }
            if is_line(all, start + offset, end + offset) {
                assert forall|i: int| start <= i < end implies rest[i] != '\n' by {
                    assert(all[i + offset] != '\n');
                }
            }
        }
        let lines = filled_lines(all);
        assert forall|i: int| 0 <= i < places.len() implies is_line(
            all,
            (#[trigger] places[i]).0,
            places[i].1,
        ) && line_content(all, places[i].0, places[i].1) == lines[i] && lines[i].len() > 0 by {
            if i >= skipped {
                let place = later[i - skipped];
                assert(places[i] == (place.0 + offset, place.1 + offset));
                assert(is_line(rest, place.0, place.1));
                assert(lines[i] == filled_lines(rest)[i - skipped]);
            }
        }
        assert forall|i: int, j: int| 0 <= i < j < places.len() implies (#[trigger] places[i]).1 < (
        #[trigger] places[j]).0 by {
            let place = later[j - skipped];
            assert(places[j] == (place.0 + offset, place.1 + offset));
            assert(is_line(rest, place.0, place.1));
            if i >= skipped {
                let earlier = later[i - skipped];
                assert(places[i] == (earlier.0 + offset, earlier.1 + offset));
            }
        }
        assert forall|start: int, end: int|
            #[trigger] is_line(all, start, end) && line_content(all, start, end).len()
                > 0 implies places.contains((start, end)) by {
            if start >= offset {
                assert(is_line(rest, start - offset, end - offset));
                let k = choose|k: int|
                    0 <= k < later.len() && later[k] == (start - offset, end - offset);
                assert(places[k + skipped] == (start, end));
            } else {
                if start > 0 {
                    assert(all[start - 1] != '\n');
                }
                if end < first {
                    assert(all[end] != '\n');
                }
                if end > first {
                    assert(all[first] == '\n');
                }
                assert(places[0] == (start, end));
            }
        }
        places
    }
}

/// A text is split into its lines: each line that says something is there, as it stands in the text
/// without its end, and in the order of the text.
pub proof fn law_lines_are_split(all: &str, lines: Vec<String>) -> (places: Seq<(int, int)>)
    requires
        call_ensures(split_lines, (all,), lines),
    ensures
        are_lines(all@, text_views(lines@), places),
{
    lemma_lines(all@)
}

/// Whether a line gives a word for a name: the name, a colon, white space, and then the word, which
/// goes as far as it can.
pub open spec fn gives(line: Seq<char>, name: Seq<char>, word: Seq<char>, start: int) -> bool {
    &&& name.len() < start
    &&& start + word.len() <= line.len()
    &&& line.take(name.len() as int) == name
    &&& !name.contains(':')
    &&& line[name.len() as int] == ':'
    &&& forall|i: int| name.len() < i < start ==> text::is_whitespace(#[trigger] line[i])
    &&& line.subrange(start, start + word.len()) == word
    &&& word.len() > 0
    &&& forall|i: int| 0 <= i < word.len() ==> !text::is_whitespace(#[trigger] word[i])
    &&& start + word.len() == line.len() || text::is_whitespace(line[start + word.len()])
}

proof fn lemma_colon(line: Seq<char>)
    ensures
        0 <= colon_position(line) <= line.len(),
        colon_position(line) < line.len() ==> line[colon_position(line)] == ':',
        forall|i: int| 0 <= i < colon_position(line) ==> line[i] != ':',
    decreases line.len(),
{
    if line.len() > 0 && line[0] != ':' {
        let rest = line.drop_first();
        lemma_colon(rest);
        assert forall|i: int| 0 <= i < colon_position(line) implies line[i] != ':' by {
            if i > 0 {
                assert(rest[i - 1] == line[i]);
            }
        }
    }
}

proof fn lemma_word_start(line: Seq<char>)
    ensures
        0 <= word_start(line) <= line.len(),
        word_start(line) < line.len() ==> !text::is_whitespace(line[word_start(line)]),
        forall|i: int| 0 <= i < word_start(line) ==> text::is_whitespace(line[i]),
    decreases line.len(),
{
    if line.len() > 0 && text::is_whitespace(line[0]) {
        let rest = line.drop_first();
        lemma_word_start(rest);
        assert forall|i: int| 0 <= i < word_start(line) implies text::is_whitespace(line[i]) by {
            if i > 0 {
                assert(rest[i - 1] == line[i]);
            }
        }
    }
}

proof fn lemma_word_length(line: Seq<char>)
    ensures
        0 <= word_length(line) <= line.len(),
        word_length(line) < line.len() ==> text::is_whitespace(line[word_length(line)]),
        forall|i: int| 0 <= i < word_length(line) ==> !text::is_whitespace(line[i]),
    decreases line.len(),
{
    if line.len() > 0 && !text::is_whitespace(line[0]) {
        let rest = line.drop_first();
        lemma_word_length(rest);
        assert forall|i: int| 0 <= i < word_length(line) implies !text::is_whitespace(
            line[i],
        ) by {
            if i > 0 {
                assert(rest[i - 1] == line[i]);
            }
        }
    }
}

proof fn lemma_named_word(line: Seq<char>, name: Seq<char>, word: Seq<char>, start: int)
    ensures
        gives(line, name, word, start) ==> named_word(line, name) == Some(word),
        named_word(line, name) matches Some(found) ==> exists|at: int| gives(line, name, found, at),
{
    lemma_colon(line);
    let colon = colon_position(line);
    let behind = line.skip(colon + 1);
    lemma_word_start(behind);
    let rest = behind.skip(word_start(behind));
    lemma_word_length(rest);
    if gives(line, name, word, start) {
        let length = name.len() as int;
        if colon < length {
            assert(line[colon] == name[colon]);
            assert(name.contains(':'));
        }
        if colon > length {
            assert(line[length] == ':');
        }
        assert(word[0] == line[start]);
        let offset = start - length - 1;
        assert(behind[offset] == line[start]);
        if word_start(behind) < offset {
            assert(behind[word_start(behind)] == line[length + 1 + word_start(behind)]);
        }
        if word_start(behind) > offset {
            assert(text::is_whitespace(behind[offset]));
        }
        let found = word_length(rest);
        if found < word.len() {
            assert(rest[found] == line[start + found]);
            assert(word[found] == line[start + found]);
        }
        if found > word.len() {
            assert(rest[word.len() as int] == line[start + word.len()]);
        }
        assert(rest.take(found) =~= word);
    }
    if let Some(found) = named_word(line, name) {
        let at = colon + 1 + word_start(behind);
        assert forall|i: int| name.len() < i < at implies text::is_whitespace(
            #[trigger] line[i],
        ) by {
            assert(behind[i - colon - 1] == line[i]);
        }
        assert(line.subrange(at, at + found.len()) =~= found);
        if name.contains(':') {
            let i = choose|i: int| 0 <= i < name.len() && name[i] == ':';
            assert(line[i] == name[i]);
        }
        assert forall|i: int| 0 <= i < found.len() implies !text::is_whitespace(
            #[trigger] found[i],
        ) by {
            assert(found[i] == rest[i]);
        }
        assert(rest[0] == behind[word_start(behind)]);
        assert(found.len() > 0);
        if at + found.len() < line.len() {
            assert(rest[found.len() as int] == line[at + found.len()]);
        }
        assert(gives(line, name, found, at));
    }
}

/// Whether the words are those that the lines at rising places give for a name, and no other line gives
/// one.
pub open spec fn are_given(
    lines: Seq<Seq<char>>,
    name: Seq<char>,
    words: Seq<Seq<char>>,
    places: Seq<int>,
) -> bool {
    &&& places.len() == words.len()
    &&& forall|k: int|
        0 <= k < places.len() ==> 0 <= #[trigger] places[k] < lines.len() && exists|at: int|
            gives(lines[places[k]], name, words[k], at)
    &&& forall|k: int, l: int|
        0 <= k < l < places.len() ==> #[trigger] places[k] < #[trigger] places[l]
    &&& forall|i: int, word: Seq<char>, at: int|
        0 <= i < lines.len() && #[trigger] gives(lines[i], name, word, at) ==> places.contains(i)
}

proof fn lemma_named_words(lines: Seq<Seq<char>>, name: Seq<char>) -> (places: Seq<int>)
    ensures
        are_given(lines, name, named_words(lines, name), places),
    decreases lines.len(),
{
    if lines.len() == 0 {
        Seq::empty()
    } else {
        let rest = lines.drop_last();
        let last = lines.len() - 1;
        let earlier = lemma_named_words(rest, name);
        let words = named_words(lines, name);
        lemma_named_word(lines.last(), name, Seq::empty(), 0);
        let places = if named_word(lines.last(), name) is Some {
            earlier.push(last)
        } else {
            earlier
        };
        assert forall|k: int| 0 <= k < places.len() implies 0 <= #[trigger] places[k] < lines.len()
            && exists|at: int| gives(lines[places[k]], name, words[k], at) by {
            if k < earlier.len() {
                assert(places[k] == earlier[k]);
                assert(rest[earlier[k]] == lines[earlier[k]]);
                assert(words[k] == named_words(rest, name)[k]);
                let at = choose|at: int|
                    gives(rest[earlier[k]], name, named_words(rest, name)[k], at);
                assert(gives(lines[places[k]], name, words[k], at));
            } else {
                let found = named_word(lines.last(), name)->Some_0;
                assert(words[k] == found);
                let at = choose|at: int| gives(lines.last(), name, found, at);
                assert(gives(lines[places[k]], name, words[k], at));
            }
        }
        assert forall|i: int, word: Seq<char>, at: int|
            0 <= i < lines.len() && #[trigger] gives(
                lines[i],
                name,
                word,
                at,
            ) implies places.contains(i) by {
            if i < last {
                assert(rest[i] == lines[i]);
                assert(gives(rest[i], name, word, at));
                let k = choose|k: int| 0 <= k < earlier.len() && earlier[k] == i;
                assert(places[k] == i);
            } else {
                lemma_named_word(lines.last(), name, word, at);
                assert(places[places.len() - 1] == i);
            }
        }
        places
    }
}

/// The words that a text gives for a name are those of the lines that begin with the name and a colon,
/// in the order of the lines.
pub proof fn law_named_words_are_given(all: &str, name: &str, words: Vec<String>) -> (places: Seq<
    int,
>)
    requires
        call_ensures(values_named, (all, name), words),
    ensures
        are_given(filled_lines(all@), name@, text_views(words@), places),
{
    lemma_named_words(filled_lines(all@), name@)
}

} // verus!
