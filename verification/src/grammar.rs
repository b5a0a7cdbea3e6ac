//! The grammar of one reminder line, as spec functions over word sequences,
//! together with the verified word-level parsers for numbers, month names and
//! time literals.
//!
//! A line has the shape
//! `REM <mon> <day> <year> AT <hh>:<mm> DURATION <hh>:<mm> MSG <free text>`.
//! Keywords and month names match up to ASCII letter case; numbers are plain
//! base-10 unsigned integers (a leading `+` is allowed, as Rust's integer
//! parsing allows it).

use vstd::prelude::*;

use crate::chars::{digit_val, eq_ignore_case, eq_ignore_case_str, is_digit, is_digit_ch};
use crate::entry::{Date, EntryModel, Month, Time};
use crate::text::{join_spaces, split_lines, tokenize};

verus! {

/// The value of a sequence of decimal digits, most significant first.
pub open spec fn digits_val(s: Seq<char>) -> int
    decreases s.len(),
{
    if s.len() == 0 {
        0
    } else {
        digits_val(s.drop_last()) * 10 + digit_val(s.last())
    }
}

pub open spec fn all_digits(s: Seq<char>) -> bool {
    forall|k: int| 0 <= k < s.len() ==> is_digit(#[trigger] s[k])
}

/// The digits of a number word: a single leading `+` sign is not part of them.
pub open spec fn num_body(w: Seq<char>) -> Seq<char> {
    if w.len() > 0 && w[0] == '+' {
        w.drop_first()
    } else {
        w
    }
}

/// The value of a number word, or `None` where it is not `['+'] digit+`.
pub open spec fn num_val(w: Seq<char>) -> Option<int> {
    let b = num_body(w);
    if b.len() > 0 && all_digits(b) {
        Some(digits_val(b))
    } else {
        None
    }
}

/// The word read as a `u32`; a well-formed number over `u32::MAX` is rejected.
pub open spec fn parse_u32(w: Seq<char>) -> Option<u32> {
    match num_val(w) {
        Some(v) => if v <= u32::MAX as int {
            Some(v as u32)
        } else {
            None
        },
        None => None,
    }
}

/// The word read as a `u8`; a well-formed number over `u8::MAX` is rejected.
pub open spec fn parse_u8(w: Seq<char>) -> Option<u8> {
    match num_val(w) {
        Some(v) => if v <= u8::MAX as int {
            Some(v as u8)
        } else {
            None
        },
        None => None,
    }
}

proof fn lemma_digits_val_nonneg(s: Seq<char>)
    requires
        all_digits(s),
    ensures
        digits_val(s) >= 0,
    decreases s.len(),
{
    if s.len() > 0 {
        assert(all_digits(s.drop_last()));
        lemma_digits_val_nonneg(s.drop_last());
    }
}

/// Reads a word as a base-10 `u32`, as [`parse_u32`] says.
pub fn parse_u32_str(w: &str) -> (r: Option<u32>)
    ensures
        r == parse_u32(w@),
{
    let n = w.unicode_len();
    let off: usize = if n > 0 && w.get_char(0) == '+' {
        1
    } else {
        0
    };
    let ghost b = num_body(w@);
    proof {
        assert(b =~= w@.subrange(off as int, n as int));
    }
    if off >= n {
        return None;
    }
    let mut val: u64 = 0;
    let mut over = false;
    let mut j = off;
    while j < n
        invariant
            n == w@.len(),
            off <= j <= n,
            b == num_body(w@),
            b =~= w@.subrange(off as int, n as int),
            forall|k: int| 0 <= k < j - off ==> is_digit(#[trigger] b[k]),
            !over ==> val == digits_val(b.subrange(0, j - off)) && val <= u32::MAX as u64,
            over ==> digits_val(b.subrange(0, j - off)) > u32::MAX as int,
        decreases n - j,
    {
        let c = w.get_char(j);
        proof {
            assert(b[j - off] == w@[j as int]);
        }
        if !is_digit_ch(c) {
            assert(!is_digit(b[j - off]));
            assert(!all_digits(b));
            return None;
        }
        let d: u64 = (c as u32 - 0x30) as u64;
        proof {
            assert(b.subrange(0, j - off + 1).drop_last() =~= b.subrange(0, j - off));
            assert(b.subrange(0, j - off + 1).last() == b[j - off]);
            assert(digits_val(b.subrange(0, j - off + 1)) == digits_val(
                b.subrange(0, j - off),
            ) * 10 + digit_val(b[j - off]));
        }
        if !over {
            let nv = val * 10 + d;
            if nv > u32::MAX as u64 {
                over = true;
            } else {
                val = nv;
            }
        }
        j += 1;
    }
    proof {
        assert(b.subrange(0, (n - off) as int) =~= b);
    }
    if over {
        None
    } else {
        Some(val as u32)
    }
}

/// Reads a word as a base-10 `u8`, as [`parse_u8`] says.
pub fn parse_u8_str(w: &str) -> (r: Option<u8>)
    ensures
        r == parse_u8(w@),
{
    let r32 = parse_u32_str(w);
    proof {
        if num_val(w@) is Some {
            lemma_digits_val_nonneg(num_body(w@));
            let v = num_val(w@).unwrap();
            assert(v >= 0);
            if v > u32::MAX as int {
                assert(v > u8::MAX as int);
            }
        }
    }
    match r32 {
        Some(v) => if v <= 0xFF {
            Some(v as u8)
        } else {
            None
        },
        None => None,
    }
}

/// The error text for a word that does not read as an unsigned integer: the
/// texts of std's integer-parse errors, so a rejected number reports exactly
/// what `str::parse` would have said. An empty word is one error, a word
/// whose digits are malformed another; a well-formed number is rejected only
/// for being too large for the target width.
pub open spec fn int_err_text(w: Seq<char>) -> Seq<char> {
    if w.len() == 0 {
        "cannot parse integer from empty string"@
    } else if num_val(w) is None {
        "invalid digit found in string"@
    } else {
        "number too large to fit in target type"@
    }
}

/// Builds the error message for a rejected number word, as [`int_err_text`]
/// says.
pub fn int_err_msg(w: &str) -> (m: String)
    ensures
        m@ == int_err_text(w@),
{
    let n = w.unicode_len();
    if n == 0 {
        return String::from_str("cannot parse integer from empty string");
    }
    let off: usize = if w.get_char(0) == '+' {
        1
    } else {
        0
    };
    let ghost b = num_body(w@);
    proof {
        assert(b =~= w@.subrange(off as int, n as int));
    }
    if off >= n {
        return String::from_str("invalid digit found in string");
    }
    let mut j = off;
    while j < n
        invariant
            n == w@.len(),
            n > 0,
            off <= j <= n,
            b == num_body(w@),
            b =~= w@.subrange(off as int, n as int),
            forall|k: int| 0 <= k < j - off ==> is_digit(#[trigger] b[k]),
        decreases n - j,
    {
        let c = w.get_char(j);
        proof {
            assert(b[j - off] == w@[j as int]);
        }
        if !is_digit_ch(c) {
            assert(!is_digit(b[j - off]));
            assert(!all_digits(b));
            return String::from_str("invalid digit found in string");
        }
        j += 1;
    }
    proof {
        assert(all_digits(b));
        assert(num_val(w@) is Some);
    }
    String::from_str("number too large to fit in target type")
}

/// The month named by a word, matched up to ASCII letter case against the
/// twelve three-letter abbreviations.
pub open spec fn month_of(w: Seq<char>) -> Option<Month> {
    if eq_ignore_case(w, "jan"@) {
        Some(Month::January)
    } else if eq_ignore_case(w, "feb"@) {
        Some(Month::February)
    } else if eq_ignore_case(w, "mar"@) {
        Some(Month::March)
    } else if eq_ignore_case(w, "apr"@) {
        Some(Month::April)
    } else if eq_ignore_case(w, "may"@) {
        Some(Month::May)
    } else if eq_ignore_case(w, "jun"@) {
        Some(Month::June)
    } else if eq_ignore_case(w, "jul"@) {
        Some(Month::July)
    } else if eq_ignore_case(w, "aug"@) {
        Some(Month::August)
    } else if eq_ignore_case(w, "sep"@) {
        Some(Month::September)
    } else if eq_ignore_case(w, "oct"@) {
        Some(Month::October)
    } else if eq_ignore_case(w, "nov"@) {
        Some(Month::November)
    } else if eq_ignore_case(w, "dec"@) {
        Some(Month::December)
    } else {
        None
    }
}

/// Matches a word against the month abbreviations, as [`month_of`] says.
pub fn month_of_str(w: &str) -> (m: Option<Month>)
    ensures
        m == month_of(w@),
{
    if eq_ignore_case_str(w, "jan") {
        Some(Month::January)
    } else if eq_ignore_case_str(w, "feb") {
        Some(Month::February)
    } else if eq_ignore_case_str(w, "mar") {
        Some(Month::March)
    } else if eq_ignore_case_str(w, "apr") {
        Some(Month::April)
    } else if eq_ignore_case_str(w, "may") {
        Some(Month::May)
    } else if eq_ignore_case_str(w, "jun") {
        Some(Month::June)
    } else if eq_ignore_case_str(w, "jul") {
        Some(Month::July)
    } else if eq_ignore_case_str(w, "aug") {
        Some(Month::August)
    } else if eq_ignore_case_str(w, "sep") {
        Some(Month::September)
    } else if eq_ignore_case_str(w, "oct") {
        Some(Month::October)
    } else if eq_ignore_case_str(w, "nov") {
        Some(Month::November)
    } else if eq_ignore_case_str(w, "dec") {
        Some(Month::December)
    } else {
        None
    }
}

/// The index of the first colon at or after `i`, or the length of `s`.
pub open spec fn colon_end(s: Seq<char>, i: int) -> int
    decreases s.len() - i,
{
    if i < 0 || i >= s.len() || s[i] == ':' {
        i
    } else {
        colon_end(s, i + 1)
    }
}

/// A time literal `<hh>:<mm>`: the digits before the first colon are the
/// hour, those between the first and the second colon (or the end) are the
/// minute; anything after a second colon is ignored. A word with no colon has
/// no minute part and is rejected.
pub open spec fn time_of(w: Seq<char>) -> Option<Time> {
    let h_end = colon_end(w, 0);
    if h_end >= w.len() {
        None
    } else {
        let hour_s = w.subrange(0, h_end);
        let min_s = w.subrange(h_end + 1, colon_end(w, h_end + 1));
        match (parse_u8(hour_s), parse_u8(min_s)) {
            (Some(h), Some(m)) => Some(Time { hour: h, minute: m }),
            _ => None,
        }
    }
}

/// Reads a word as a time literal, as [`time_of`] says.
pub fn time_of_str(w: &str) -> (t: Option<Time>)
    ensures
        t == time_of(w@),
{
    let n = w.unicode_len();
    let mut j: usize = 0;
    while j < n && w.get_char(j) != ':'
        invariant
            n == w@.len(),
            j <= n,
            colon_end(w@, 0) == colon_end(w@, j as int),
        decreases n - j,
    {
        j += 1;
    }
    assert(colon_end(w@, 0) == j as int);
    if j >= n {
        return None;
    }
    let mut k: usize = j + 1;
    while k < n && w.get_char(k) != ':'
        invariant
            n == w@.len(),
            j + 1 <= k <= n,
            colon_end(w@, j as int + 1) == colon_end(w@, k as int),
        decreases n - k,
    {
        k += 1;
    }
    assert(colon_end(w@, j as int + 1) == k as int);
    let hour = match parse_u8_str(w.substring_char(0, j)) {
        Some(h) => h,
        None => {
            return None;
        },
    };
    let minute = match parse_u8_str(w.substring_char(j + 1, k)) {
        Some(m) => m,
        None => {
            return None;
        },
    };
    Some(Time { hour, minute })
}

/// The error text for a word that does not read as a time literal, checked
/// in the order the rule reads it: the hour digits are parsed first, so a
/// malformed or too-large hour reports the integer-parse text; only then is
/// a missing minute part reported — with the missing-hour wording, a quirk
/// kept as it stands; a present but rejected minute reports its own
/// integer-parse text.
pub open spec fn time_err_text(w: Seq<char>) -> Seq<char> {
    let h_end = colon_end(w, 0);
    if parse_u8(w.subrange(0, h_end)) is None {
        int_err_text(w.subrange(0, h_end))
    } else if h_end >= w.len() {
        "Expecting hour, found end of line"@
    } else {
        int_err_text(w.subrange(h_end + 1, colon_end(w, h_end + 1)))
    }
}

/// Builds the error message for a rejected time word, as [`time_err_text`]
/// says.
pub fn time_err_msg(w: &str) -> (m: String)
    ensures
        m@ == time_err_text(w@),
{
    let n = w.unicode_len();
    let mut j: usize = 0;
    while j < n && w.get_char(j) != ':'
        invariant
            n == w@.len(),
            j <= n,
            colon_end(w@, 0) == colon_end(w@, j as int),
        decreases n - j,
    {
        j += 1;
    }
    assert(colon_end(w@, 0) == j as int);
    let hour_str = w.substring_char(0, j);
    match parse_u8_str(hour_str) {
        None => int_err_msg(hour_str),
        Some(_) => {
            if j >= n {
                String::from_str("Expecting hour, found end of line")
            } else {
                let mut k: usize = j + 1;
                while k < n && w.get_char(k) != ':'
                    invariant
                        n == w@.len(),
                        j + 1 <= k <= n,
                        colon_end(w@, j as int + 1) == colon_end(w@, k as int),
                    decreases n - k,
                {
                    k += 1;
                }
                assert(colon_end(w@, j as int + 1) == k as int);
                int_err_msg(w.substring_char(j + 1, k))
            }
        },
    }
}

/// The cursor after consuming one word, where one is left to consume.
pub open spec fn adv1(ws: Seq<Seq<char>>, i: int) -> int {
    if 0 <= i < ws.len() {
        i + 1
    } else {
        i
    }
}

/// The word at `i` matches the keyword up to ASCII letter case.
pub open spec fn kw_at(ws: Seq<Seq<char>>, i: int, kw: Seq<char>) -> bool {
    0 <= i < ws.len() && eq_ignore_case(ws[i], kw)
}

pub open spec fn month_at(ws: Seq<Seq<char>>, i: int) -> Option<Month> {
    if 0 <= i < ws.len() {
        month_of(ws[i])
    } else {
        None
    }
}

pub open spec fn num_at(ws: Seq<Seq<char>>, i: int) -> Option<u32> {
    if 0 <= i < ws.len() {
        parse_u32(ws[i])
    } else {
        None
    }
}

pub open spec fn time_at(ws: Seq<Seq<char>>, i: int) -> Option<Time> {
    if 0 <= i < ws.len() {
        time_of(ws[i])
    } else {
        None
    }
}

/// The date read from the three words at `i`: month name, day, year. The day
/// and the year keep only the low 8 and 16 bits of the number on the line, as
/// the widths of the fields force.
pub open spec fn date_res(ws: Seq<Seq<char>>, i: int) -> Option<Date> {
    if month_at(ws, i) is Some && num_at(ws, i + 1) is Some && num_at(ws, i + 2) is Some {
        Some(
            Date {
                day: num_at(ws, i + 1).unwrap() as u8,
                month: month_at(ws, i).unwrap(),
                year: num_at(ws, i + 2).unwrap() as u16,
            },
        )
    } else {
        None
    }
}

/// The cursor after the date rule: each word is consumed as it is examined,
/// and the rule stops at the first failure.
pub open spec fn date_adv(ws: Seq<Seq<char>>, i: int) -> int {
    if !(0 <= i < ws.len()) {
        i
    } else if month_of(ws[i]) is None {
        i + 1
    } else if !(i + 1 < ws.len()) {
        i + 1
    } else if parse_u32(ws[i + 1]) is None {
        i + 2
    } else if !(i + 2 < ws.len()) {
        i + 2
    } else {
        i + 3
    }
}

/// The error a failing number rule reports: at the end of the line it names
/// the day of month, whichever number was being read — a quirk kept as it
/// stands; on a rejected word, the integer-parse text for that word.
pub open spec fn num_err_at(ws: Seq<Seq<char>>, i: int) -> Seq<char> {
    if 0 <= i < ws.len() {
        int_err_text(ws[i])
    } else {
        "Expecting day of month, found end of line"@
    }
}

/// The error a failing time rule reports.
pub open spec fn time_err_at(ws: Seq<Seq<char>>, i: int) -> Seq<char> {
    if 0 <= i < ws.len() {
        time_err_text(ws[i])
    } else {
        "Expecting time, found end of line"@
    }
}

/// The error a failing date rule reports: the first failing sub-rule speaks.
pub open spec fn date_err_text(ws: Seq<Seq<char>>, i: int) -> Seq<char> {
    if !(0 <= i < ws.len()) {
        "Expecting date, found end of line"@
    } else if month_of(ws[i]) is None {
        "Invalid month "@ + ws[i]
    } else if num_at(ws, i + 1) is None {
        num_err_at(ws, i + 1)
    } else {
        num_err_at(ws, i + 2)
    }
}

/// The error a failing entry reports: the first failing rule speaks. Every
/// keyword mismatch reports the same text, naming `REM` whichever keyword
/// was expected — a quirk kept as it stands.
pub open spec fn entry_err_text(ws: Seq<Seq<char>>, i: int) -> Seq<char> {
    if !kw_at(ws, i, "REM"@) {
        "Expecting REM at beginning of line"@
    } else if date_res(ws, i + 1) is None {
        date_err_text(ws, i + 1)
    } else if !kw_at(ws, i + 4, "AT"@) {
        "Expecting REM at beginning of line"@
    } else if time_at(ws, i + 5) is None {
        time_err_at(ws, i + 5)
    } else if !kw_at(ws, i + 6, "DURATION"@) {
        "Expecting REM at beginning of line"@
    } else if time_at(ws, i + 7) is None {
        time_err_at(ws, i + 7)
    } else {
        "Expecting REM at beginning of line"@
    }
}

/// The duration of a time literal read as a span: whole seconds.
pub open spec fn dur_secs_of(t: Time) -> int {
    t.hour as int * 3600 + t.minute as int * 60
}

/// The entry read from the words at `i` on: `None` where any rule of the
/// grammar fails. The message is every word after `MSG`, joined by single
/// spaces.
pub open spec fn entry_res(ws: Seq<Seq<char>>, i: int) -> Option<EntryModel> {
    if !kw_at(ws, i, "REM"@) {
        None
    } else if date_res(ws, i + 1) is None {
        None
    } else if !kw_at(ws, i + 4, "AT"@) {
        None
    } else if time_at(ws, i + 5) is None {
        None
    } else if !kw_at(ws, i + 6, "DURATION"@) {
        None
    } else if time_at(ws, i + 7) is None {
        None
    } else if !kw_at(ws, i + 8, "MSG"@) {
        None
    } else {
        Some(
            EntryModel {
                date: date_res(ws, i + 1).unwrap(),
                time: time_at(ws, i + 5).unwrap(),
                dur_secs: dur_secs_of(time_at(ws, i + 7).unwrap()),
                msg: join_spaces(ws.subrange(i + 9, ws.len() as int)),
            },
        )
    }
}

/// The entry read from one line, or `None` where the line is malformed.
pub open spec fn line_entry(l: Seq<char>) -> Option<EntryModel> {
    entry_res(tokenize(l), 0)
}

/// The entries read from a sequence of lines, in source order; a line that
/// yields no entry contributes nothing.
pub open spec fn entries_of_lines(lines: Seq<Seq<char>>) -> Seq<EntryModel>
    decreases lines.len(),
{
    if lines.len() == 0 {
        Seq::empty()
    } else {
        match line_entry(lines[0]) {
            Some(e) => seq![e] + entries_of_lines(lines.drop_first()),
            None => entries_of_lines(lines.drop_first()),
        }
    }
}

/// The entries read from a whole text, line by line.
pub open spec fn entries_of_text(s: Seq<char>) -> Seq<EntryModel> {
    entries_of_lines(split_lines(s))
}

} // verus!
