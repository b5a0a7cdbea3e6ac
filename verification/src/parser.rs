//! The recursive-descent parser over the words of one line, and the driver
//! that parses a whole text line by line.

use vstd::prelude::*;

use crate::chars::eq_ignore_case_str;
use crate::entry::{Date, Duration, Entry, EntryModel, Time};
use crate::grammar::{
    adv1, date_adv, date_err_text, date_res, dur_secs_of, entries_of_lines, entries_of_text,
    entry_err_text, entry_res, int_err_msg, kw_at, month_of_str, num_at, num_err_at, parse_u32_str,
    time_at, time_err_at, time_err_msg, time_of_str,
};
use crate::text::{
    join_spaces, lemma_join_spaces_push, split_lines, split_lines_str, tokenize, tokenize_str,
    views,
};

verus! {

/// The cursor after the `AT <hh>:<mm>` rule.
pub open spec fn time_adv(ws: Seq<Seq<char>>, i: int) -> int {
    if kw_at(ws, i, "AT"@) {
        adv1(ws, i + 1)
    } else {
        adv1(ws, i)
    }
}

/// The time read by the `AT <hh>:<mm>` rule at `i`.
pub open spec fn time_res(ws: Seq<Seq<char>>, i: int) -> Option<Time> {
    if kw_at(ws, i, "AT"@) {
        time_at(ws, i + 1)
    } else {
        None
    }
}

/// The cursor after the `DURATION <hh>:<mm>` rule.
pub open spec fn duration_adv(ws: Seq<Seq<char>>, i: int) -> int {
    if kw_at(ws, i, "DURATION"@) {
        adv1(ws, i + 1)
    } else {
        adv1(ws, i)
    }
}

/// The time literal read by the `DURATION <hh>:<mm>` rule at `i`.
pub open spec fn duration_res(ws: Seq<Seq<char>>, i: int) -> Option<Time> {
    if kw_at(ws, i, "DURATION"@) {
        time_at(ws, i + 1)
    } else {
        None
    }
}

/// A cursor over the whitespace-delimited words of one line. Words are
/// consumed strictly left to right, one at a time, with no lookahead and no
/// pushback.
pub struct Parser {
    index: usize,
    words: Vec<String>,
}

impl Parser {
    /// The words of the line.
    pub closed spec fn toks(&self) -> Seq<Seq<char>> {
        views(self.words@)
    }

    /// The cursor: how many words have been consumed.
    pub closed spec fn pos(&self) -> int {
        self.index as int
    }

    /// The cursor never runs past the end of the words.
    pub open spec fn wf(&self) -> bool {
        0 <= self.pos() <= self.toks().len()
    }

    /// A parser at the first word of `line`.
    pub fn new(line: &str) -> (p: Parser)
        ensures
            p.toks() == tokenize(line@),
            p.pos() == 0,
            p.wf(),
    {
        let words = tokenize_str(line);
        Parser { index: 0, words }
    }

    /// Returns the next unconsumed word and advances the cursor, or `None`
    /// at the end of the line.
    pub fn next_word(&mut self) -> (r: Option<&str>)
        requires
            old(self).wf(),
        ensures
            final(self).toks() == old(self).toks(),
            final(self).wf(),
            final(self).pos() == adv1(old(self).toks(), old(self).pos()),
            old(self).pos() < old(self).toks().len() ==> (r matches Some(w) && w@ == old(
                self,
            ).toks()[old(self).pos()]),
            old(self).pos() >= old(self).toks().len() ==> r is None,
    {
        if self.index < self.words.len() {
            proof {
                assert(self.toks()[self.pos()] == self.words@[self.index as int]@);
            }
            let i = self.index;
            self.index += 1;
            Some(self.words[i].as_str())
        } else {
            None
        }
    }

    /// Consumes one word and checks that it is the expected keyword, up to
    /// ASCII letter case. Any other word, or the end of the line, is an
    /// error whose message always names `REM`, whichever keyword was
    /// expected — a quirk kept as it stands.
    pub fn ident(&mut self, ident: &str) -> (r: Result<(), String>)
        requires
            old(self).wf(),
        ensures
            final(self).toks() == old(self).toks(),
            final(self).wf(),
            final(self).pos() == adv1(old(self).toks(), old(self).pos()),
            r is Ok <==> kw_at(old(self).toks(), old(self).pos(), ident@),
            r matches Err(e) ==> e@ == "Expecting REM at beginning of line"@,
    {
        match self.next_word() {
            Some(w) => {
                if eq_ignore_case_str(w, ident) {
                    Ok(())
                } else {
                    Err(String::from_str("Expecting REM at beginning of line"))
                }
            },
            None => Err(String::from_str("Expecting REM at beginning of line")),
        }
    }

    /// Consumes one word and reads it as a base-10 unsigned integer. A
    /// rejected word reports the integer-parse text; at the end of the line
    /// the message names the day of month, whichever number was being
    /// read — a quirk kept as it stands.
    pub fn num(&mut self) -> (r: Result<u32, String>)
        requires
            old(self).wf(),
        ensures
            final(self).toks() == old(self).toks(),
            final(self).wf(),
            final(self).pos() == adv1(old(self).toks(), old(self).pos()),
            r is Ok <==> num_at(old(self).toks(), old(self).pos()) is Some,
            r matches Ok(v) ==> num_at(old(self).toks(), old(self).pos()) == Some(v),
            r matches Err(e) ==> e@ == num_err_at(old(self).toks(), old(self).pos()),
    {
        match self.next_word() {
            Some(w) => {
                match parse_u32_str(w) {
                    Some(v) => Ok(v),
                    None => Err(int_err_msg(w)),
                }
            },
            None => Err(String::from_str("Expecting day of month, found end of line")),
        }
    }

    /// Reads a date: a month abbreviation, a day and a year. The day and the
    /// year keep the low 8 and 16 bits of the numbers on the line.
    pub fn date(&mut self) -> (r: Result<Date, String>)
        requires
            old(self).wf(),
        ensures
            final(self).toks() == old(self).toks(),
            final(self).wf(),
            final(self).pos() == date_adv(old(self).toks(), old(self).pos()),
            r is Ok <==> date_res(old(self).toks(), old(self).pos()) is Some,
            r matches Ok(d) ==> date_res(old(self).toks(), old(self).pos()) == Some(d),
            r matches Err(e) ==> e@ == date_err_text(old(self).toks(), old(self).pos()),
    {
        let month = match self.next_word() {
            Some(w) => {
                match month_of_str(w) {
                    Some(m) => m,
                    None => {
                        return Err(String::from_str("Invalid month ").concat(w));
                    },
                }
            },
            None => {
                return Err(String::from_str("Expecting date, found end of line"));
            },
        };
        let day_n = match self.num() {
            Ok(v) => v,
            Err(e) => {
                return Err(e);
            },
        };
        let year_n = match self.num() {
            Ok(v) => v,
            Err(e) => {
                return Err(e);
            },
        };
        let day = #[verifier::truncate] (day_n as u8);
        let year = #[verifier::truncate] (year_n as u16);
        Ok(Date { day, month, year })
    }

    /// Consumes one word and reads it as a time literal `<hh>:<mm>`. A
    /// rejected hour or minute reports its integer-parse text; a word whose
    /// hour reads but whose minute part is missing reports the missing-hour
    /// wording — a quirk kept as it stands.
    pub fn time_num(&mut self) -> (r: Result<Time, String>)
        requires
            old(self).wf(),
        ensures
            final(self).toks() == old(self).toks(),
            final(self).wf(),
            final(self).pos() == adv1(old(self).toks(), old(self).pos()),
            r is Ok <==> time_at(old(self).toks(), old(self).pos()) is Some,
            r matches Ok(t) ==> time_at(old(self).toks(), old(self).pos()) == Some(t),
            r matches Err(e) ==> e@ == time_err_at(old(self).toks(), old(self).pos()),
    {
        match self.next_word() {
            Some(w) => {
                match time_of_str(w) {
                    Some(t) => Ok(t),
                    None => Err(time_err_msg(w)),
                }
            },
            None => Err(String::from_str("Expecting time, found end of line")),
        }
    }

    /// Reads the start time: the keyword `AT`, then a time literal.
    pub fn time(&mut self) -> (r: Result<Time, String>)
        requires
            old(self).wf(),
        ensures
            final(self).toks() == old(self).toks(),
            final(self).wf(),
            final(self).pos() == time_adv(old(self).toks(), old(self).pos()),
            r is Ok <==> time_res(old(self).toks(), old(self).pos()) is Some,
            r matches Ok(t) ==> time_res(old(self).toks(), old(self).pos()) == Some(t),
            r matches Err(e) ==> e@ == (if kw_at(old(self).toks(), old(self).pos(), "AT"@) {
                time_err_at(old(self).toks(), old(self).pos() + 1)
            } else {
                "Expecting REM at beginning of line"@
            }),
    {
        match self.ident("AT") {
            Ok(_) => {},
            Err(e) => {
                return Err(e);
            },
        }
        self.time_num()
    }

    /// Reads the duration: the keyword `DURATION`, then a time literal,
    /// converted to a span of `hour * 3600 + minute * 60` whole seconds.
    pub fn duration(&mut self) -> (r: Result<Duration, String>)
        requires
            old(self).wf(),
        ensures
            final(self).toks() == old(self).toks(),
            final(self).wf(),
            final(self).pos() == duration_adv(old(self).toks(), old(self).pos()),
            r is Ok <==> duration_res(old(self).toks(), old(self).pos()) is Some,
            r matches Ok(d) ==> duration_res(old(self).toks(), old(self).pos()) matches Some(t)
                && d.secs == dur_secs_of(t),
            r matches Err(e) ==> e@ == (if kw_at(old(self).toks(), old(self).pos(), "DURATION"@) {
                time_err_at(old(self).toks(), old(self).pos() + 1)
            } else {
                "Expecting REM at beginning of line"@
            }),
    {
        match self.ident("DURATION") {
            Ok(_) => {},
            Err(e) => {
                return Err(e);
            },
        }
        let t = match self.time_num() {
            Ok(t) => t,
            Err(e) => {
                return Err(e);
            },
        };
        Ok(Duration { secs: t.hour as u64 * 60 * 60 + t.minute as u64 * 60 })
    }

    /// Reads the message: the keyword `MSG`, then every remaining word,
    /// joined by single spaces. No word after `MSG` leaves the message
    /// empty; runs of whitespace on the line collapse to one space.
    pub fn message(&mut self) -> (r: Result<String, String>)
        requires
            old(self).wf(),
        ensures
            final(self).toks() == old(self).toks(),
            final(self).wf(),
            final(self).pos() == adv1(old(self).toks(), old(self).pos()),
            r is Ok <==> kw_at(old(self).toks(), old(self).pos(), "MSG"@),
            r matches Ok(m) ==> m@ == join_spaces(
                old(self).toks().subrange(old(self).pos() + 1, old(self).toks().len() as int),
            ),
            r matches Err(e) ==> e@ == "Expecting REM at beginning of line"@,
    {
        match self.ident("MSG") {
            Ok(_) => {},
            Err(e) => {
                return Err(e);
            },
        }
        let start = self.index;
        let mut out = String::new();
        proof {
            assert(views(self.words@).subrange(start as int, start as int) =~= Seq::<
                Seq<char>,
            >::empty());
        }
        let mut k = start;
        while k < self.words.len()
            invariant
                start <= k <= self.words.len(),
                out@ == join_spaces(views(self.words@).subrange(start as int, k as int)),
            decreases self.words.len() - k,
        {
            proof {
                reveal_strlit(" ");
                let ws = views(self.words@);
                assert(" "@ =~= seq![' ']);
                assert(ws.subrange(start as int, start as int) =~= Seq::<Seq<char>>::empty());
                assert(ws.subrange(start as int, k + 1) =~= ws.subrange(start as int, k as int)
                    .push(ws[k as int]));
                lemma_join_spaces_push(ws.subrange(start as int, k as int), ws[k as int]);
                assert(ws[k as int] == self.words@[k as int]@);
            }
            if k > start {
                out.append(" ");
            }
            out.append(self.words[k].as_str());
            k += 1;
        }
        Ok(out)
    }

    /// Reads one whole entry: `REM`, a date, a start time, a duration and a
    /// message, in exactly that order. The first failing rule aborts the
    /// entry.
    pub fn entry(&mut self) -> (r: Result<Entry, String>)
        requires
            old(self).wf(),
        ensures
            final(self).toks() == old(self).toks(),
            final(self).wf(),
            r is Ok <==> entry_res(old(self).toks(), old(self).pos()) is Some,
            r matches Ok(e) ==> entry_res(old(self).toks(), old(self).pos()) == Some(e@),
            r is Ok ==> final(self).pos() == old(self).pos() + 9,
            r matches Err(e) ==> e@ == entry_err_text(old(self).toks(), old(self).pos()),
    {
        match self.ident("REM") {
            Ok(_) => {},
            Err(e) => {
                return Err(e);
            },
        }
        let date = match self.date() {
            Ok(d) => d,
            Err(e) => {
                return Err(e);
            },
        };
        let time = match self.time() {
            Ok(t) => t,
            Err(e) => {
                return Err(e);
            },
        };
        let duration = match self.duration() {
            Ok(d) => d,
            Err(e) => {
                return Err(e);
            },
        };
        let msg = match self.message() {
            Ok(m) => m,
            Err(e) => {
                return Err(e);
            },
        };
        Ok(Entry { date, duration, msg, time })
    }
}

/// The views of a sequence of entries.
pub open spec fn entry_views(es: Seq<Entry>) -> Seq<EntryModel> {
    es.map_values(|e: Entry| e@)
}

proof fn lemma_entry_views_push(es: Seq<Entry>, e: Entry)
    ensures
        entry_views(es.push(e)) == entry_views(es).push(e@),
{
    assert(entry_views(es.push(e)) =~= entry_views(es).push(e@));
}

/// Parses a whole text: each line is tokenized and run through the grammar
/// independently; lines that fail contribute nothing, and the entries of the
/// valid lines come back in source order.
pub fn parse(input: &str) -> (entries: Vec<Entry>)
    ensures
        entry_views(entries@) == entries_of_text(input@),
{
    let lines = split_lines_str(input);
    let mut entries: Vec<Entry> = Vec::new();
    let ghost lv = views(lines@);
    proof {
        assert(lv.subrange(0, lv.len() as int) =~= lv);
        assert(entry_views(entries@) + entries_of_lines(lv) =~= entries_of_lines(lv));
    }
    let mut k: usize = 0;
    while k < lines.len()
        invariant
            k <= lines.len(),
            lv == views(lines@),
            lv == split_lines(input@),
            entry_views(entries@) + entries_of_lines(lv.subrange(k as int, lv.len() as int))
                == entries_of_text(input@),
        decreases lines.len() - k,
    {
        let mut p = Parser::new(lines[k].as_str());
        proof {
            assert(lv[k as int] == lines@[k as int]@);
            let tail = lv.subrange(k as int, lv.len() as int);
            assert(tail[0] == lv[k as int]);
            assert(tail.drop_first() =~= lv.subrange(k + 1, lv.len() as int));
        }
        match p.entry() {
            Ok(e) => {
                proof {
                    lemma_entry_views_push(entries@, e);
                    assert((entry_views(entries@).push(e@) + entries_of_lines(
                        lv.subrange(k + 1, lv.len() as int),
                    )) =~= (entry_views(entries@) + (seq![e@] + entries_of_lines(
                        lv.subrange(k + 1, lv.len() as int),
                    ))));
                }
                entries.push(e);
            },
            Err(_) => {},
        }
        k += 1;
    }
    proof {
        assert(lv.subrange(lv.len() as int, lv.len() as int) =~= Seq::<Seq<char>>::empty());
        assert(entry_views(entries@) + Seq::<EntryModel>::empty() =~= entry_views(entries@));
    }
    entries
}

} // verus!
