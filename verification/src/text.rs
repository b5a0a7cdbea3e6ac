//! Text layer: splitting input into lines, splitting a line into
//! whitespace-delimited words, and joining words with single spaces.

use vstd::prelude::*;

use crate::chars::{is_space, is_space_ch};

verus! {

/// The views of a sequence of strings.
pub open spec fn views(ws: Seq<String>) -> Seq<Seq<char>> {
    ws.map_values(|w: String| w@)
}

proof fn lemma_views_push(ws: Seq<String>, w: String)
    ensures
        views(ws.push(w)) == views(ws).push(w@),
{
    assert(views(ws.push(w)) =~= views(ws).push(w@));
}

/// The index just past the word starting at `i`: the first position at or
/// after `i` that is out of range or holds whitespace.
pub open spec fn word_end(s: Seq<char>, i: int) -> int
    decreases s.len() - i,
{
    if i < 0 || i >= s.len() || is_space(s[i]) {
        i
    } else {
        word_end(s, i + 1)
    }
}

pub proof fn lemma_word_end_bounds(s: Seq<char>, i: int)
    requires
        0 <= i <= s.len(),
    ensures
        i <= word_end(s, i) <= s.len(),
    decreases s.len() - i,
{
    if !(i >= s.len() || is_space(s[i])) {
        lemma_word_end_bounds(s, i + 1);
    }
}

/// The whitespace-delimited words of `s` from position `i` on: runs of
/// whitespace are discarded and each maximal run of non-whitespace
/// characters is one word.
pub open spec fn tokens_from(s: Seq<char>, i: int) -> Seq<Seq<char>>
    decreases s.len() - i,
{
    if i < 0 || i >= s.len() {
        Seq::empty()
    } else if is_space(s[i]) {
        tokens_from(s, i + 1)
    } else {
        proof {
            lemma_word_end_bounds(s, i + 1);
            assert(word_end(s, i) == word_end(s, i + 1));
        }
        seq![s.subrange(i, word_end(s, i))] + tokens_from(s, word_end(s, i))
    }
}

/// The words of the whole of `s`.
pub open spec fn tokenize(s: Seq<char>) -> Seq<Seq<char>> {
    tokens_from(s, 0)
}

/// Splits a line into its whitespace-delimited words.
pub fn tokenize_str(line: &str) -> (words: Vec<String>)
    ensures
        views(words@) == tokenize(line@),
{
    let n = line.unicode_len();
    let mut words: Vec<String> = Vec::new();
    let mut i: usize = 0;
    while i < n
        invariant
            n == line@.len(),
            i <= n,
            tokenize(line@) == views(words@) + tokens_from(line@, i as int),
        decreases n - i,
    {
        let c = line.get_char(i);
        if is_space_ch(c) {
            i += 1;
        } else {
            let start = i;
            while i < n && !is_space_ch(line.get_char(i))
                invariant
                    n == line@.len(),
                    start <= i <= n,
                    word_end(line@, start as int) == word_end(line@, i as int),
                decreases n - i,
            {
                i += 1;
            }
            assert(word_end(line@, start as int) == i as int);
            let word = line.substring_char(start, i).to_owned();
            proof {
                lemma_views_push(words@, word);
                assert(tokens_from(line@, start as int) == seq![line@.subrange(
                    start as int,
                    i as int,
                )] + tokens_from(line@, i as int));
                assert((views(words@) + tokens_from(line@, start as int)) =~= (views(
                    words@,
                ).push(word@) + tokens_from(line@, i as int)));
            }
            words.push(word);
        }
    }
    proof {
        assert(views(words@) + tokens_from(line@, n as int) =~= views(words@));
    }
    words
}

/// The index of the first newline at or after `i`, or the length of `s`.
pub open spec fn line_end(s: Seq<char>, i: int) -> int
    decreases s.len() - i,
{
    if i < 0 || i >= s.len() || s[i] == '\n' {
        i
    } else {
        line_end(s, i + 1)
    }
}

pub proof fn lemma_line_end_bounds(s: Seq<char>, i: int)
    requires
        0 <= i <= s.len(),
    ensures
        i <= line_end(s, i) <= s.len(),
    decreases s.len() - i,
{
    if !(i >= s.len() || s[i] == '\n') {
        lemma_line_end_bounds(s, i + 1);
    }
}

/// Removes a trailing carriage return, if one is present.
pub open spec fn strip_cr(l: Seq<char>) -> Seq<char> {
    if l.len() > 0 && l.last() == '\r' {
        l.drop_last()
    } else {
        l
    }
}

/// The lines of `s` from position `i` on. A line ends at a newline, which is
/// not part of it; a carriage return just before the newline is dropped too.
/// Text after the last newline forms a final line kept as it stands; in
/// particular an empty `s` has no lines.
pub open spec fn lines_from(s: Seq<char>, i: int) -> Seq<Seq<char>>
    decreases s.len() - i,
{
    if i < 0 || i >= s.len() {
        Seq::empty()
    } else {
        proof {
            lemma_line_end_bounds(s, i);
        }
        if line_end(s, i) >= s.len() {
            seq![s.subrange(i, s.len() as int)]
        } else {
            seq![strip_cr(s.subrange(i, line_end(s, i)))] + lines_from(s, line_end(s, i) + 1)
        }
    }
}

/// The lines of the whole of `s`.
pub open spec fn split_lines(s: Seq<char>) -> Seq<Seq<char>> {
    lines_from(s, 0)
}

/// Splits a text into lines.
pub fn split_lines_str(input: &str) -> (lines: Vec<String>)
    ensures
        views(lines@) == split_lines(input@),
{
    let n = input.unicode_len();
    let mut lines: Vec<String> = Vec::new();
    let mut i: usize = 0;
    while i < n
        invariant
            n == input@.len(),
            i <= n,
            split_lines(input@) == views(lines@) + lines_from(input@, i as int),
        decreases n - i,
    {
        let start = i;
        while i < n && input.get_char(i) != '\n'
            invariant
                n == input@.len(),
                start <= i <= n,
                line_end(input@, start as int) == line_end(input@, i as int),
            decreases n - i,
        {
            i += 1;
        }
        assert(line_end(input@, start as int) == i as int);
        if i < n {
            // The newline at `i` ends this line; drop a carriage return
            // just before it.
            let line = if i > start && input.get_char(i - 1) == '\r' {
                let l = input.substring_char(start, i - 1);
                proof {
                    assert(strip_cr(input@.subrange(start as int, i as int)) =~= input@.subrange(
                        start as int,
                        i as int - 1,
                    ));
                }
                l
            } else {
                input.substring_char(start, i)
            }.to_owned();
            proof {
                lemma_views_push(lines@, line);
                assert((views(lines@) + lines_from(input@, start as int)) =~= (views(lines@).push(
                    line@,
                ) + lines_from(input@, i + 1)));
            }
            lines.push(line);
            i += 1;
        } else {
            let line = input.substring_char(start, i).to_owned();
            proof {
                lemma_views_push(lines@, line);
                assert((views(lines@) + lines_from(input@, start as int)) =~= (views(lines@).push(
                    line@,
                ) + lines_from(input@, i as int)));
            }
            lines.push(line);
        }
    }
    proof {
        assert(views(lines@) + lines_from(input@, n as int) =~= views(lines@));
    }
    lines
}

/// The words joined by single spaces: the empty sequence for no words,
/// otherwise the words in order with one space between neighbours.
pub open spec fn join_spaces(ws: Seq<Seq<char>>) -> Seq<char>
    decreases ws.len(),
{
    if ws.len() == 0 {
        Seq::empty()
    } else if ws.len() == 1 {
        ws[0]
    } else {
        ws[0] + seq![' '] + join_spaces(ws.drop_first())
    }
}

pub proof fn lemma_join_spaces_push(ws: Seq<Seq<char>>, w: Seq<char>)
    ensures
        join_spaces(ws.push(w)) == if ws.len() == 0 {
            w
        } else {
            join_spaces(ws) + seq![' '] + w
        },
    decreases ws.len(),
{
    if ws.len() == 0 {
        assert(ws.push(w)[0] == w);
    } else if ws.len() == 1 {
        assert(ws.push(w).drop_first() =~= seq![w]);
        assert(join_spaces(seq![w]) == w);
    } else {
        assert(ws.push(w).drop_first() =~= ws.drop_first().push(w));
        lemma_join_spaces_push(ws.drop_first(), w);
    }
}

} // verus!
