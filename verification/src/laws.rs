//! General properties of the parser, stated and proved over the grammar's
//! spec functions.

use vstd::prelude::*;

use crate::chars::{eq_ignore_case, is_space, lower_code};
use crate::entry::EntryModel;
use crate::grammar::{entries_of_lines, entries_of_text, entry_res, line_entry, month_of};
use crate::text::{join_spaces, lemma_word_end_bounds, tokenize, tokens_from, word_end};

verus! {

/// Entries of consecutive lines come in source order: the entries of a text
/// split in two are the entries of the first part followed by those of the
/// second.
pub proof fn lemma_entries_append(a: Seq<Seq<char>>, b: Seq<Seq<char>>)
    ensures
        entries_of_lines(a + b) == entries_of_lines(a) + entries_of_lines(b),
    decreases a.len(),
{
    if a.len() == 0 {
        assert(a + b =~= b);
        assert(entries_of_lines(a) + entries_of_lines(b) =~= entries_of_lines(b));
    } else {
        assert((a + b).drop_first() =~= a.drop_first() + b);
        assert((a + b)[0] == a[0]);
        lemma_entries_append(a.drop_first(), b);
        if line_entry(a[0]) is Some {
            let e = line_entry(a[0]).unwrap();
            assert((seq![e] + (entries_of_lines(a.drop_first()) + entries_of_lines(b))) =~= ((
            seq![e] + entries_of_lines(a.drop_first())) + entries_of_lines(b)));
        }
    }
}

/// A malformed line is skipped, never fatal: wherever it stands among the
/// lines, it contributes nothing and the other lines parse as if it were not
/// there.
pub proof fn lemma_malformed_line_skipped(a: Seq<Seq<char>>, l: Seq<char>, b: Seq<Seq<char>>)
    requires
        line_entry(l) is None,
    ensures
        entries_of_lines(a + seq![l] + b) == entries_of_lines(a + b),
{
    lemma_entries_append(a, seq![l]);
    lemma_entries_append(a + seq![l], b);
    lemma_entries_append(a, b);
    assert(seq![l].drop_first() =~= Seq::<Seq<char>>::empty());
    assert(seq![l][0] == l);
    assert(entries_of_lines(Seq::<Seq<char>>::empty()) == Seq::<EntryModel>::empty());
    assert(entries_of_lines(seq![l]) =~= Seq::<EntryModel>::empty());
    assert(entries_of_lines(a) + Seq::<EntryModel>::empty() =~= entries_of_lines(a));
}

/// Keyword matching sees only the case-folded word: two words equal up to
/// ASCII letter case match exactly the same keywords.
pub proof fn lemma_keyword_case_insensitive(w1: Seq<char>, w2: Seq<char>, kw: Seq<char>)
    requires
        eq_ignore_case(w1, w2),
    ensures
        eq_ignore_case(w1, kw) == eq_ignore_case(w2, kw),
{
    if eq_ignore_case(w1, kw) {
        assert forall|k: int| 0 <= k < w2.len() implies lower_code(#[trigger] w2[k]) == lower_code(
            kw[k],
        ) by {
            assert(lower_code(w1[k]) == lower_code(w2[k]));
            assert(lower_code(w1[k]) == lower_code(kw[k]));
        }
    }
    if eq_ignore_case(w2, kw) {
        assert forall|k: int| 0 <= k < w1.len() implies lower_code(#[trigger] w1[k]) == lower_code(
            kw[k],
        ) by {
            assert(lower_code(w1[k]) == lower_code(w2[k]));
            assert(lower_code(w2[k]) == lower_code(kw[k]));
        }
    }
}

/// Month names are matched up to ASCII letter case: two words equal up to
/// case name the same month, or none.
pub proof fn lemma_month_case_insensitive(w1: Seq<char>, w2: Seq<char>)
    requires
        eq_ignore_case(w1, w2),
    ensures
        month_of(w1) == month_of(w2),
{
    lemma_keyword_case_insensitive(w1, w2, "jan"@);
    lemma_keyword_case_insensitive(w1, w2, "feb"@);
    lemma_keyword_case_insensitive(w1, w2, "mar"@);
    lemma_keyword_case_insensitive(w1, w2, "apr"@);
    lemma_keyword_case_insensitive(w1, w2, "may"@);
    lemma_keyword_case_insensitive(w1, w2, "jun"@);
    lemma_keyword_case_insensitive(w1, w2, "jul"@);
    lemma_keyword_case_insensitive(w1, w2, "aug"@);
    lemma_keyword_case_insensitive(w1, w2, "sep"@);
    lemma_keyword_case_insensitive(w1, w2, "oct"@);
    lemma_keyword_case_insensitive(w1, w2, "nov"@);
    lemma_keyword_case_insensitive(w1, w2, "dec"@);
}

/// Two word sequences that differ only in the letter case of the words in
/// the keyword positions (`REM`, `AT`, `DURATION`, `MSG`) and the month
/// position; every other word is the same.
pub open spec fn recased_words(ws1: Seq<Seq<char>>, ws2: Seq<Seq<char>>) -> bool {
    &&& ws1.len() == ws2.len()
    &&& (ws1.len() > 0 ==> eq_ignore_case(ws1[0], ws2[0]))
    &&& (ws1.len() > 1 ==> eq_ignore_case(ws1[1], ws2[1]))
    &&& (ws1.len() > 4 ==> eq_ignore_case(ws1[4], ws2[4]))
    &&& (ws1.len() > 6 ==> eq_ignore_case(ws1[6], ws2[6]))
    &&& (ws1.len() > 8 ==> eq_ignore_case(ws1[8], ws2[8]))
    &&& (forall|k: int|
        0 <= k < ws1.len() && k != 0 && k != 1 && k != 4 && k != 6 && k != 8
            ==> #[trigger] ws1[k] == ws2[k])
}

/// A whole line parses identically under recasing of its keywords and its
/// month name: where the words in the keyword positions and the month
/// position agree up to ASCII letter case and every other word is the same,
/// the parsed entry is the same.
pub proof fn lemma_entry_case_insensitive(ws1: Seq<Seq<char>>, ws2: Seq<Seq<char>>)
    requires
        recased_words(ws1, ws2),
    ensures
        entry_res(ws1, 0) == entry_res(ws2, 0),
{
    if ws1.len() > 0 {
        lemma_keyword_case_insensitive(ws1[0], ws2[0], "REM"@);
    }
    if ws1.len() > 1 {
        lemma_month_case_insensitive(ws1[1], ws2[1]);
    }
    if ws1.len() > 2 {
        assert(ws1[2] == ws2[2]);
    }
    if ws1.len() > 3 {
        assert(ws1[3] == ws2[3]);
    }
    if ws1.len() > 4 {
        lemma_keyword_case_insensitive(ws1[4], ws2[4], "AT"@);
    }
    if ws1.len() > 5 {
        assert(ws1[5] == ws2[5]);
    }
    if ws1.len() > 6 {
        lemma_keyword_case_insensitive(ws1[6], ws2[6], "DURATION"@);
    }
    if ws1.len() > 7 {
        assert(ws1[7] == ws2[7]);
    }
    if ws1.len() > 8 {
        lemma_keyword_case_insensitive(ws1[8], ws2[8], "MSG"@);
    }
    if ws1.len() >= 9 {
        assert(ws1.subrange(9, ws1.len() as int) =~= ws2.subrange(9, ws2.len() as int));
    }
}

/// A whole sequence of lines parses identically under recasing of keywords
/// and month names: where each line's words stand in [`recased_words`] to
/// the matching line's, the two line sequences yield equal entry lists.
pub proof fn lemma_lines_case_insensitive(ls1: Seq<Seq<char>>, ls2: Seq<Seq<char>>)
    requires
        ls1.len() == ls2.len(),
        forall|n: int|
            0 <= n < ls1.len() ==> recased_words(tokenize(#[trigger] ls1[n]), tokenize(ls2[n])),
    ensures
        entries_of_lines(ls1) == entries_of_lines(ls2),
    decreases ls1.len(),
{
    if ls1.len() > 0 {
        assert(recased_words(tokenize(ls1[0]), tokenize(ls2[0])));
        lemma_entry_case_insensitive(tokenize(ls1[0]), tokenize(ls2[0]));
        assert(line_entry(ls1[0]) == line_entry(ls2[0]));
        assert forall|n: int|
            0 <= n < ls1.drop_first().len() implies recased_words(
            tokenize(#[trigger] ls1.drop_first()[n]),
            tokenize(ls2.drop_first()[n]),
        ) by {
            assert(ls1.drop_first()[n] == ls1[n + 1]);
            assert(ls2.drop_first()[n] == ls2[n + 1]);
        }
        lemma_lines_case_insensitive(ls1.drop_first(), ls2.drop_first());
    }
}

/// A line that ends exactly at `MSG` yields an entry whose message is empty.
pub proof fn lemma_empty_message(ws: Seq<Seq<char>>, i: int)
    requires
        entry_res(ws, i) is Some,
        ws.len() == i + 9,
    ensures
        entry_res(ws, i).unwrap().msg == Seq::<char>::empty(),
{
    assert(ws.subrange(i + 9, ws.len() as int) =~= Seq::<Seq<char>>::empty());
}

/// Parsing is repeatable: the result is a pure function of the input text, so
/// any two parses of the same text yield equal entry sequences. There is no
/// state carried from one parse to the next.
pub proof fn lemma_parse_repeatable(input: Seq<char>, r1: Seq<EntryModel>, r2: Seq<EntryModel>)
    requires
        r1 == entries_of_text(input),
        r2 == entries_of_text(input),
    ensures
        r1 == r2,
{
}

/// A word as the tokenizer produces it: non-empty, with no whitespace in it.
pub open spec fn word_shaped(w: Seq<char>) -> bool {
    w.len() > 0 && (forall|j: int| 0 <= j < w.len() ==> !is_space(#[trigger] w[j]))
}

/// No character of a word, up to its end, is whitespace.
proof fn lemma_word_end_chars(s: Seq<char>, i: int)
    requires
        0 <= i <= s.len(),
    ensures
        forall|m: int| i <= m < word_end(s, i) ==> !is_space(#[trigger] s[m]),
    decreases s.len() - i,
{
    if !(i >= s.len() || is_space(s[i])) {
        lemma_word_end_chars(s, i + 1);
        lemma_word_end_bounds(s, i + 1);
    }
}

/// Every word the tokenizer yields is non-empty and free of whitespace.
pub proof fn lemma_tokens_word_shaped(s: Seq<char>, i: int)
    requires
        0 <= i <= s.len(),
    ensures
        forall|k: int|
            0 <= k < tokens_from(s, i).len() ==> word_shaped(#[trigger] tokens_from(s, i)[k]),
    decreases s.len() - i,
{
    if i >= s.len() {
    } else if is_space(s[i]) {
        lemma_tokens_word_shaped(s, i + 1);
        assert(tokens_from(s, i) == tokens_from(s, i + 1));
    } else {
        let j = word_end(s, i);
        lemma_word_end_bounds(s, i + 1);
        lemma_word_end_chars(s, i);
        lemma_tokens_word_shaped(s, j);
        let w = s.subrange(i, j);
        assert(word_shaped(w));
        assert(tokens_from(s, i) == seq![w] + tokens_from(s, j));
        assert forall|k: int|
            0 <= k < tokens_from(s, i).len() implies word_shaped(
            #[trigger] tokens_from(s, i)[k],
        ) by {
            if k == 0 {
                assert(tokens_from(s, i)[0] == w);
            } else {
                assert(tokens_from(s, i)[k] == tokens_from(s, j)[k - 1]);
            }
        }
    }
}

/// No two consecutive characters of `m` are both whitespace.
pub open spec fn collapsed(m: Seq<char>) -> bool {
    forall|j: int| 0 <= j && j + 1 < m.len() ==> !(is_space(#[trigger] m[j]) && is_space(m[j + 1]))
}

/// Joining non-empty whitespace-free words with single spaces yields a text
/// with no two consecutive whitespace characters, and (when there are words)
/// a non-whitespace first and last character.
proof fn lemma_join_spaces_collapsed(ws: Seq<Seq<char>>)
    requires
        forall|k: int| 0 <= k < ws.len() ==> word_shaped(#[trigger] ws[k]),
    ensures
        collapsed(join_spaces(ws)),
        ws.len() > 0 ==> join_spaces(ws).len() > 0 && !is_space(join_spaces(ws)[0]) && !is_space(
            join_spaces(ws).last(),
        ),
    decreases ws.len(),
{
    if ws.len() == 0 {
    } else if ws.len() == 1 {
        assert(word_shaped(ws[0]));
    } else {
        assert forall|k: int|
            0 <= k < ws.drop_first().len() implies word_shaped(#[trigger] ws.drop_first()[k]) by {
            assert(ws.drop_first()[k] == ws[k + 1]);
        }
        lemma_join_spaces_collapsed(ws.drop_first());
        let w0 = ws[0];
        let rest = join_spaces(ws.drop_first());
        let m = join_spaces(ws);
        assert(m == w0 + seq![' '] + rest);
        assert(word_shaped(w0));
        assert forall|j: int| 0 <= j && j + 1 < m.len() implies !(is_space(#[trigger] m[j])
            && is_space(m[j + 1])) by {
            if j + 1 < w0.len() {
                assert(m[j] == w0[j]);
            } else if j < w0.len() {
                assert(m[j] == w0[j]);
                assert(!is_space(m[j]));
            } else if j == w0.len() {
                assert(m[j + 1] == rest[0]);
                assert(!is_space(m[j + 1]));
            } else {
                assert(m[j] == rest[j - w0.len() - 1]);
                assert(m[j + 1] == rest[j - w0.len()]);
            }
        }
        assert(m[0] == w0[0]);
        assert(m.last() == rest.last());
    }
}

/// Whitespace collapsing: however the words of a line were separated, the
/// message of a parsed entry never holds two consecutive whitespace
/// characters — runs of whitespace between message words come out as the
/// single spaces that [`join_spaces`] puts there.
pub proof fn lemma_message_collapsed(l: Seq<char>)
    requires
        line_entry(l) is Some,
    ensures
        collapsed(line_entry(l).unwrap().msg),
{
    let ws = tokenize(l);
    lemma_tokens_word_shaped(l, 0);
    let tail = ws.subrange(9, ws.len() as int);
    assert forall|k: int| 0 <= k < tail.len() implies word_shaped(#[trigger] tail[k]) by {
        assert(tail[k] == ws[k + 9]);
    }
    lemma_join_spaces_collapsed(tail);
}

} // verus!
