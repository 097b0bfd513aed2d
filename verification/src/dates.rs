//! The calendar date model: proleptic-Gregorian dates as plain
//! year/month/day values, a day-number measure that orders them, the
//! date-range generator, and the file-name date convention.

use chrono::Datelike;
use chrono::Timelike;
use vstd::prelude::*;

verus! {

use vstd::string::*;
use crate::digits::{
    dec_str_pad2,
    dec_str_pad4,
    pad_four_digits,
    pad_two_digits,
    parse_u32,
    parse_u32_spec,
};
use crate::strings::{find_sub, first_match, last_index_of, push_char, rfind_char};

/// A calendar date of the proleptic Gregorian calendar, between years
/// 0 and 9999.
#[derive(Clone, Copy, Debug, PartialEq, Eq, Structural)]
pub struct Date {
    pub year: u32,
    pub month: u32,
    pub day: u32,
}

/// Whether year `y` is a leap year.
pub open spec fn spec_is_leap_year(y: int) -> bool {
    (y % 4 == 0 && y % 100 != 0) || y % 400 == 0
}

/// How many days month `m` of year `y` has.
pub open spec fn spec_days_in_month(y: int, m: int) -> int {
    if m == 2 {
        if spec_is_leap_year(y) {
            29
        } else {
            28
        }
    } else if m == 4 || m == 6 || m == 9 || m == 11 {
        30
    } else {
        31
    }
}

/// How many days year `y` has.
pub open spec fn spec_days_in_year(y: int) -> int {
    if spec_is_leap_year(y) {
        366
    } else {
        365
    }
}

/// How many days of year `y` come before month `m`.
pub open spec fn days_before_month(y: int, m: int) -> int
    decreases m,
{
    if m <= 1 {
        0
    } else {
        days_before_month(y, m - 1) + spec_days_in_month(y, m - 1)
    }
}

/// How many days come before the first day of year `y`, counting from
/// the first day of year 0.
pub open spec fn days_before_year(y: int) -> int
    decreases y,
{
    if y <= 0 {
        0
    } else {
        days_before_year(y - 1) + spec_days_in_year(y - 1)
    }
}

impl Date {
    /// A well-formed calendar date.
    pub open spec fn valid(self) -> bool {
        &&& self.year <= 9999
        &&& 1 <= self.month <= 12
        &&& 1 <= self.day <= spec_days_in_month(self.year as int, self.month as int)
    }

    /// The number of days between this date and the first day of year 0.
    /// Consecutive dates have consecutive day numbers.
    pub open spec fn day_number(self) -> int {
        days_before_year(self.year as int) + days_before_month(
            self.year as int,
            self.month as int,
        ) + self.day - 1
    }

    /// Calendar order: year, then month, then day.
    pub open spec fn spec_le(self, other: Date) -> bool {
        ||| self.year < other.year
        ||| (self.year == other.year && self.month < other.month)
        ||| (self.year == other.year && self.month == other.month && self.day <= other.day)
    }

    /// Strict calendar order.
    pub open spec fn spec_lt(self, other: Date) -> bool {
        self.spec_le(other) && self != other
    }
}

/// Whether year `y` is a leap year.
pub fn is_leap_year(y: u32) -> (b: bool)
    ensures
        b == spec_is_leap_year(y as int),
{
    (y % 4 == 0 && y % 100 != 0) || y % 400 == 0
}

/// How many days month `m` of year `y` has.
pub fn days_in_month(y: u32, m: u32) -> (r: u32)
    requires
        1 <= m <= 12,
    ensures
        r == spec_days_in_month(y as int, m as int),
        28 <= r <= 31,
{
    if m == 2 {
        if is_leap_year(y) {
            29
        } else {
            28
        }
    } else if m == 4 || m == 6 || m == 9 || m == 11 {
        30
    } else {
        31
    }
}

/// The date of the first available comic.
pub fn first() -> (r: Date)
    ensures
        r == (Date { year: 1978, month: 6, day: 19 }),
        r.valid(),
{
    Date { year: 1978, month: 6, day: 19 }
}

/// Builds a date, if the given fields form a valid one.
pub fn date_from_ymd(year: u32, month: u32, day: u32) -> (r: Option<Date>)
    ensures
        ({
            let d = Date { year, month, day };
            match r {
                Some(got) => got == d && d.valid(),
                None => !d.valid(),
            }
        }),
{
    if year <= 9999 && 1 <= month && month <= 12 && 1 <= day && day <= days_in_month(year, month) {
        Some(Date { year, month, day })
    } else {
        None
    }
}

/// Whether `a` is on or before `b` in calendar order.
pub fn date_le(a: Date, b: Date) -> (r: bool)
    ensures
        r == a.spec_le(b),
{
    a.year < b.year || (a.year == b.year && (a.month < b.month || (a.month == b.month && a.day
        <= b.day)))
}

proof fn lemma_days_before_month_monotone(y: int, m1: int, m2: int)
    requires
        1 <= m1 <= m2 <= 13,
    ensures
        days_before_month(y, m1) <= days_before_month(y, m2),
        m1 < m2 ==> days_before_month(y, m1) + spec_days_in_month(y, m1) <= days_before_month(
            y,
            m2,
        ),
    decreases m2 - m1,
{
    if m1 < m2 {
        lemma_days_before_month_monotone(y, m1, m2 - 1);
    }
}

proof fn lemma_months_sum(y: int)
    ensures
        days_before_month(y, 13) == spec_days_in_year(y),
{
    reveal_with_fuel(days_before_month, 13);
}

proof fn lemma_day_number_in_year(d: Date)
    requires
        d.valid(),
    ensures
        days_before_year(d.year as int) <= d.day_number() < days_before_year(d.year as int)
            + spec_days_in_year(d.year as int),
{
    let y = d.year as int;
    let m = d.month as int;
    lemma_days_before_month_monotone(y, 1, m);
    lemma_days_before_month_monotone(y, m, 13);
    lemma_months_sum(y);
}

proof fn lemma_days_before_year_monotone(y1: int, y2: int)
    requires
        0 <= y1 <= y2,
    ensures
        days_before_year(y1) <= days_before_year(y2),
        y1 < y2 ==> days_before_year(y1) + spec_days_in_year(y1) <= days_before_year(y2),
    decreases y2 - y1,
{
    if y1 < y2 {
        lemma_days_before_year_monotone(y1, y2 - 1);
    }
}

/// Calendar order agrees with day-number order on valid dates.
pub proof fn lemma_date_order(a: Date, b: Date)
    requires
        a.valid(),
        b.valid(),
    ensures
        a.spec_le(b) <==> a.day_number() <= b.day_number(),
        a.spec_lt(b) <==> a.day_number() < b.day_number(),
        a.day_number() == b.day_number() ==> a == b,
{
    lemma_day_number_in_year(a);
    lemma_day_number_in_year(b);
    if a.year < b.year {
        lemma_days_before_year_monotone(a.year as int, b.year as int);
    } else if b.year < a.year {
        lemma_days_before_year_monotone(b.year as int, a.year as int);
    } else {
        let y = a.year as int;
        if a.month < b.month {
            lemma_days_before_month_monotone(y, a.month as int, b.month as int);
        } else if b.month < a.month {
            lemma_days_before_month_monotone(y, b.month as int, a.month as int);
        }
    }
}

/// The day after `d`.
pub fn next_date(d: Date) -> (r: Date)
    requires
        d.valid(),
        !(d.year == 9999 && d.month == 12 && d.day == 31),
    ensures
        r.valid(),
        r.day_number() == d.day_number() + 1,
{
    let dim = days_in_month(d.year, d.month);
    if d.day < dim {
        Date { year: d.year, month: d.month, day: d.day + 1 }
    } else if d.month < 12 {
        let r = Date { year: d.year, month: d.month + 1, day: 1 };
        proof {
            assert(days_before_month(d.year as int, d.month + 1) == days_before_month(
                d.year as int,
                d.month as int,
            ) + spec_days_in_month(d.year as int, d.month as int));
        }
        r
    } else {
        let r = Date { year: d.year + 1, month: 1, day: 1 };
        proof {
            lemma_months_sum(d.year as int);
            assert(days_before_month(d.year as int, 13) == days_before_month(d.year as int, 12)
                + spec_days_in_month(d.year as int, 12));
        }
        r
    }
}

/// The day before `d`.
pub fn prev_date(d: Date) -> (r: Date)
    requires
        d.valid(),
        d.day_number() >= 1,
    ensures
        r.valid(),
        r.day_number() == d.day_number() - 1,
{
    if d.day > 1 {
        Date { year: d.year, month: d.month, day: d.day - 1 }
    } else if d.month > 1 {
        let dim = days_in_month(d.year, d.month - 1);
        let r = Date { year: d.year, month: d.month - 1, day: dim };
        proof {
            assert(days_before_month(d.year as int, d.month as int) == days_before_month(
                d.year as int,
                d.month - 1,
            ) + spec_days_in_month(d.year as int, d.month - 1));
        }
        r
    } else {
        proof {
            if d.year == 0 {
                assert(d.day_number() == 0);
            }
        }
        let r = Date { year: d.year - 1, month: 12, day: 31 };
        proof {
            lemma_months_sum(d.year - 1);
            assert(days_before_month(d.year - 1, 13) == days_before_month(d.year - 1, 12)
                + spec_days_in_month(d.year - 1, 12));
        }
        r
    }
}

/// Every date from `start` to `end`, inclusive, in ascending calendar
/// order, one entry per day, with no gaps and no duplicates.  An empty
/// sequence when `start` is after `end`.
pub fn get_dates_between(start: Date, end: Date) -> (r: Vec<Date>)
    requires
        start.valid(),
        end.valid(),
    ensures
        start.spec_le(end) ==> {
            &&& r@.len() == end.day_number() - start.day_number() + 1
            &&& forall|i: int|
                0 <= i < r@.len() ==> (#[trigger] r@[i]).valid() && r@[i].day_number()
                    == start.day_number() + i
            &&& r@[0] == start
            &&& r@[r@.len() - 1] == end
            &&& forall|i: int, j: int| 0 <= i < j < r@.len() ==> r@[i].spec_lt(r@[j])
            &&& forall|i: int, j: int| 0 <= i < j < r@.len() ==> r@[i] != r@[j]
        },
        !start.spec_le(end) ==> r@ =~= Seq::<Date>::empty(),
{
    let mut out: Vec<Date> = Vec::new();
    if !date_le(start, end) {
        return out;
    }
    proof {
        lemma_date_order(start, end);
    }
    let mut cur = start;
    while !(cur == end)
        invariant
            start.valid(),
            end.valid(),
            cur.valid(),
            start.day_number() <= cur.day_number() <= end.day_number(),
            out@.len() == cur.day_number() - start.day_number(),
            forall|i: int|
                0 <= i < out@.len() ==> (#[trigger] out@[i]).valid() && out@[i].day_number()
                    == start.day_number() + i,
            out@.len() > 0 ==> out@[0] == start,
            out@.len() == 0 ==> cur == start,
        decreases end.day_number() - cur.day_number(),
    {
        proof {
            lemma_date_order(cur, end);
            let top = Date { year: 9999, month: 12, day: 31 };
            if cur == top {
                lemma_date_order(end, top);
            }
        }
        out.push(cur);
        cur = next_date(cur);
    }
    out.push(cur);
    proof {
        assert forall|i: int, j: int| 0 <= i < j < out@.len() implies out@[i].spec_lt(out@[j]) by {
            lemma_date_order(out@[i], out@[j]);
        }
    }
    out
}

/// The date token `YYYY<sep>MM<sep>DD`, zero-padded.
pub open spec fn date_token_sep(d: Date, sep: char) -> Seq<char> {
    dec_str_pad4(d.year as nat) + seq![sep] + dec_str_pad2(d.month as nat) + seq![sep]
        + dec_str_pad2(d.day as nat)
}

/// The date token `YYYY-MM-DD` used for file names and cache rows.
pub open spec fn date_token(d: Date) -> Seq<char> {
    date_token_sep(d, '-')
}

/// Renders `d` as `YYYY<sep>MM<sep>DD`.
pub fn format_date_sep(d: Date, sep: char) -> (s: String)
    ensures
        s@ == date_token_sep(d, sep),
{
    let mut s = pad_four_digits(d.year);
    push_char(&mut s, sep);
    let m = pad_two_digits(d.month);
    let mut s = s.concat(m.as_str());
    push_char(&mut s, sep);
    let dd = pad_two_digits(d.day);
    let s = s.concat(dd.as_str());
    proof {
        assert(s@ =~= date_token_sep(d, sep));
    }
    s
}

/// Renders `d` as `YYYY-MM-DD`.
pub fn format_date(d: Date) -> (s: String)
    ensures
        s@ == date_token(d),
{
    format_date_sep(d, '-')
}

/// The part of a path after its last `/`.
pub open spec fn after_last_slash(s: Seq<char>) -> Seq<char> {
    match last_index_of(s, '/') {
        Some(i) => s.subrange(i + 1, s.len() as int),
        None => s,
    }
}

/// The part of a file name before its first `.`.
pub open spec fn before_first_dot(s: Seq<char>) -> Seq<char> {
    match first_match(s, seq!['.']) {
        Some(i) => s.subrange(0, i),
        None => s,
    }
}

/// The first three `-`-separated tokens of `s`; further tokens are
/// ignored.  Nothing if `s` has fewer than three.
pub open spec fn split_date_tokens(s: Seq<char>) -> Option<(Seq<char>, Seq<char>, Seq<char>)> {
    match first_match(s, seq!['-']) {
        None => None,
        Some(i) => {
            let rest = s.subrange(i + 1, s.len() as int);
            match first_match(rest, seq!['-']) {
                None => None,
                Some(j) => {
                    let rest2 = rest.subrange(j + 1, rest.len() as int);
                    let day = match first_match(rest2, seq!['-']) {
                        Some(k) => rest2.subrange(0, k),
                        None => rest2,
                    };
                    Some((s.subrange(0, i), rest.subrange(0, j), day))
                },
            }
        },
    }
}

/// The date a file name denotes under the `YYYY-MM-DD` convention:
/// the name after any directory prefix and before any extension must
/// split into three dash-separated decimal tokens forming a valid date.
pub open spec fn date_from_filename_spec(s: Seq<char>) -> Option<Date> {
    let stem = before_first_dot(after_last_slash(s));
    match split_date_tokens(stem) {
        None => None,
        Some(parts) => match (parse_u32_spec(parts.0), parse_u32_spec(parts.1), parse_u32_spec(
            parts.2,
        )) {
            (Some(y), Some(m), Some(d)) => {
                let date = Date { year: y, month: m, day: d };
                if date.valid() {
                    Some(date)
                } else {
                    None
                }
            },
            _ => None,
        },
    }
}

/// Extracts the date a file name denotes, if any.
pub fn date_from_filename(filename: &str) -> (r: Option<Date>)
    ensures
        r == date_from_filename_spec(filename@),
{
    proof {
        reveal_strlit(".");
        reveal_strlit("-");
        assert("."@ =~= seq!['.']);
        assert("-"@ =~= seq!['-']);
    }
    let n: usize = filename.unicode_len();
    let name: &str = match rfind_char(filename, '/') {
        Some(i) => filename.substring_char(i + 1, n),
        None => filename,
    };
    let stem: &str = match find_sub(name, ".") {
        Some(i) => name.substring_char(0, i),
        None => name,
    };
    let i = match find_sub(stem, "-") {
        None => {
            return None;
        },
        Some(i) => i,
    };
    let year_str = stem.substring_char(0, i);
    let rest = stem.substring_char(i + 1, stem.unicode_len());
    let j = match find_sub(rest, "-") {
        None => {
            return None;
        },
        Some(j) => j,
    };
    let month_str = rest.substring_char(0, j);
    let rest2 = rest.substring_char(j + 1, rest.unicode_len());
    let day_str = match find_sub(rest2, "-") {
        Some(k) => rest2.substring_char(0, k),
        None => rest2,
    };
    let year = match parse_u32(year_str) {
        None => {
            return None;
        },
        Some(y) => y,
    };
    let month = match parse_u32(month_str) {
        None => {
            return None;
        },
        Some(m) => m,
    };
    let day = match parse_u32(day_str) {
        None => {
            return None;
        },
        Some(d) => d,
    };
    date_from_ymd(year, month, day)
}

/// Formatting a valid date and parsing the token back under the file
/// name convention yields the date again.
pub proof fn lemma_date_token_round_trip(d: Date)
    requires
        d.valid(),
    ensures
        date_from_filename_spec(date_token(d)) == Some(d),
{
    let tok = date_token(d);
    let p4 = dec_str_pad4(d.year as nat);
    let p2m = dec_str_pad2(d.month as nat);
    let p2d = dec_str_pad2(d.day as nat);
    crate::digits::lemma_pad4_value(d.year as nat);
    crate::digits::lemma_pad2_value(d.month as nat);
    crate::digits::lemma_pad2_value(d.day as nat);
    let a = p4.len() as int;
    let b = a + 1;
    let c = b + p2m.len() as int;
    let e = c + 1;
    assert(tok.len() == e + p2d.len());

    // Where each character of the token comes from.
    assert forall|i: int| 0 <= i < a implies tok[i] == p4[i] by {}
    assert(tok[a] == '-');
    assert forall|i: int| b <= i < c implies tok[i] == p2m[i - b] by {}
    assert(tok[c] == '-');
    assert forall|i: int| e <= i < tok.len() implies tok[i] == p2d[i - e] by {}

    // No slash and no dot anywhere: every character is a digit or `-`.
    assert forall|i: int| 0 <= i < tok.len() implies tok[i] != '/' && tok[i] != '.' by {
        if i < a {
            assert(crate::digits::is_digit(tok[i]));
        } else if i == a || i == c {
        } else if i < c {
            assert(crate::digits::is_digit(tok[i]));
        } else {
            assert(crate::digits::is_digit(tok[i]));
        }
    }
    crate::strings::lemma_last_index_none(tok, '/');
    assert(after_last_slash(tok) == tok);
    assert forall|j: int| !crate::strings::occurs_at(tok, seq!['.'], j) by {
        if 0 <= j < tok.len() {
            crate::strings::lemma_occurs_single(tok, '.', j);
        }
    }
    crate::strings::lemma_first_match_none(tok, seq!['.']);
    assert(before_first_dot(tok) == tok);

    // The first dash closes the year token.
    crate::strings::lemma_occurs_single(tok, '-', a);
    assert forall|j: int| 0 <= j < a implies !crate::strings::occurs_at(tok, seq!['-'], j) by {
        assert(crate::digits::is_digit(tok[j]));
        crate::strings::lemma_occurs_single(tok, '-', j);
    }
    crate::strings::lemma_first_match_found(tok, seq!['-'], a);
    assert(tok.subrange(0, a) =~= p4);
    let rest = tok.subrange(b, tok.len() as int);
    assert(rest =~= p2m + seq!['-'] + p2d);

    // The next dash closes the month token.
    let m = p2m.len() as int;
    assert(rest[m] == '-');
    crate::strings::lemma_occurs_single(rest, '-', m);
    assert forall|j: int| 0 <= j < m implies !crate::strings::occurs_at(rest, seq!['-'], j) by {
        assert(rest[j] == p2m[j]);
        assert(crate::digits::is_digit(rest[j]));
        crate::strings::lemma_occurs_single(rest, '-', j);
    }
    crate::strings::lemma_first_match_found(rest, seq!['-'], m);
    assert(rest.subrange(0, m) =~= p2m);
    let rest2 = rest.subrange(m + 1, rest.len() as int);
    assert(rest2 =~= p2d);

    // The day token runs to the end: no further dash.
    assert forall|j: int| !crate::strings::occurs_at(rest2, seq!['-'], j) by {
        if 0 <= j < rest2.len() {
            assert(crate::digits::is_digit(rest2[j]));
            crate::strings::lemma_occurs_single(rest2, '-', j);
        }
    }
    crate::strings::lemma_first_match_none(rest2, seq!['-']);

    // The three tokens read back as the date's fields.
    assert(split_date_tokens(tok) == Some((p4, p2m, p2d)));
    assert(parse_u32_spec(p4) == Some(d.year));
    assert(parse_u32_spec(p2m) == Some(d.month));
    assert(parse_u32_spec(p2d) == Some(d.day));
    assert(Date { year: d.year, month: d.month, day: d.day } == d);
}

/// Two valid dates with one date token are one date.
pub proof fn lemma_date_token_injective(d1: Date, d2: Date)
    requires
        d1.valid(),
        d2.valid(),
        date_token(d1) == date_token(d2),
    ensures
        d1 == d2,
{
    lemma_date_token_round_trip(d1);
    lemma_date_token_round_trip(d2);
}

/// The English name of the month of `m`.
pub open spec fn spec_month_name(m: int) -> Seq<char> {
    if m == 1 {
        "January"@
    } else if m == 2 {
        "February"@
    } else if m == 3 {
        "March"@
    } else if m == 4 {
        "April"@
    } else if m == 5 {
        "May"@
    } else if m == 6 {
        "June"@
    } else if m == 7 {
        "July"@
    } else if m == 8 {
        "August"@
    } else if m == 9 {
        "September"@
    } else if m == 10 {
        "October"@
    } else if m == 11 {
        "November"@
    } else {
        "December"@
    }
}

/// The English name of the month of `date`.
pub fn date_month_to_string(date: Date) -> (r: &'static str)
    requires
        date.valid(),
    ensures
        r@ == spec_month_name(date.month as int),
{
    match date.month {
        1 => "January",
        2 => "February",
        3 => "March",
        4 => "April",
        5 => "May",
        6 => "June",
        7 => "July",
        8 => "August",
        9 => "September",
        10 => "October",
        11 => "November",
        _ => "December",
    }
}

/// Seconds past UTC midnight by which the day's comic is published.
pub const PUBLISH_SECONDS_UTC: u32 = 7 * 3600;

/// The current UTC civil date and time of day.
///
/// Relies on `chrono::Utc::now` with `Datelike` and `Timelike`: the
/// returned components form a valid civil date, and the seconds of the
/// day are below 86400.
#[verifier::external_body]
fn utc_now_civil() -> (r: (i64, u32, u32, u32))
    ensures
        1 <= r.1 <= 12,
        1 <= r.2,
        r.2 as int <= spec_days_in_month(r.0 as int, r.1 as int),
        r.3 < 86400,
{
    let now = chrono::Utc::now();
    let date = now.date_naive();
    (date.year() as i64, date.month(), date.day(), now.time().num_seconds_from_midnight())
}

/// Today's date in UTC, when the clock reports a year this model holds.
pub fn today() -> (r: Option<Date>)
    ensures
        r matches Some(d) ==> d.valid(),
{
    let (y, m, d, _s) = utc_now_civil();
    if 0 <= y && y <= 9999 {
        Some(Date { year: y as u32, month: m, day: d })
    } else {
        None
    }
}

proof fn lemma_day_number_nonneg(d: Date)
    requires
        d.valid(),
    ensures
        d.day_number() >= 0,
{
    lemma_days_before_year_monotone(0, d.year as int);
    lemma_days_before_month_monotone(d.year as int, 1, d.month as int);
}

/// The latest date whose comic is available: `today` once the day's
/// publish time has passed, the day before it otherwise.
pub fn latest_from(today: Date, seconds_of_day: u32) -> (r: Date)
    requires
        today.valid(),
        today.day_number() >= 1,
    ensures
        r.valid(),
        seconds_of_day > PUBLISH_SECONDS_UTC ==> r == today,
        seconds_of_day <= PUBLISH_SECONDS_UTC ==> r.day_number() == today.day_number() - 1,
{
    if seconds_of_day > PUBLISH_SECONDS_UTC {
        today
    } else {
        prev_date(today)
    }
}

/// The latest date whose comic is available, read from the clock.
pub fn latest() -> (r: Option<Date>)
    ensures
        r matches Some(d) ==> d.valid(),
{
    let (y, m, d, s) = utc_now_civil();
    if 0 <= y && y <= 9999 {
        let today = Date { year: y as u32, month: m, day: d };
        if today.year == 0 && today.month == 1 && today.day == 1 {
            None
        } else {
            proof {
                lemma_day_number_nonneg(today);
                let zero = Date { year: 0, month: 1, day: 1 };
                if today.day_number() == 0 {
                    lemma_date_order(today, zero);
                }
            }
            Some(latest_from(today, s))
        }
    } else {
        None
    }
}

/// The dates denoted by those of the given file names that follow the
/// date convention; names that do not are ignored.
pub open spec fn dates_of_filenames(names: Seq<Seq<char>>) -> Seq<Date> {
    names.filter_map(|n: Seq<char>| date_from_filename_spec(n))
}

/// The dates already represented among the given file names.  Names
/// that do not follow the `YYYY-MM-DD` convention are skipped without
/// an error.
pub fn get_existing_dates(filenames: &Vec<String>) -> (r: Vec<Date>)
    ensures
        r@ == dates_of_filenames(filenames.deep_view()),
{
    let ghost all = filenames.deep_view();
    let ghost f = |n: Seq<char>| date_from_filename_spec(n);
    let mut out: Vec<Date> = Vec::new();
    let n = filenames.len();
    let mut i: usize = 0;
    while i < n
        invariant
            n == filenames@.len(),
            0 <= i <= n,
            all == filenames.deep_view(),
            f == (|n: Seq<char>| date_from_filename_spec(n)),
            out@ == all.subrange(0, i as int).filter_map(f),
        decreases n - i,
    {
        proof {
            assert(all.subrange(0, i + 1).drop_last() =~= all.subrange(0, i as int));
            assert(all.subrange(0, i + 1).last() == all[i as int]);
            assert(all[i as int] == filenames@[i as int]@);
        }
        match date_from_filename(filenames[i].as_str()) {
            Some(d) => out.push(d),
            None => {},
        }
        i += 1;
    }
    proof {
        assert(all.subrange(0, n as int) =~= all);
    }
    out
}

/// Every date of `all` that `existing` does not hold, in the order of
/// `all`: a date is missing exactly when it is expected and not present.
pub fn missing_dates(all: &Vec<Date>, existing: &Vec<Date>) -> (r: Vec<Date>)
    ensures
        r@ == all@.filter(|d: Date| !existing@.contains(d)),
        forall|d: Date| #[trigger] r@.contains(d) <==> all@.contains(d) && !existing@.contains(d),
{
    let ghost pred = |d: Date| !existing@.contains(d);
    let mut out: Vec<Date> = Vec::new();
    let n = all.len();
    let mut i: usize = 0;
    while i < n
        invariant
            n == all@.len(),
            0 <= i <= n,
            pred == (|d: Date| !existing@.contains(d)),
            out@ == all@.subrange(0, i as int).filter(pred),
        decreases n - i,
    {
        proof {
            reveal(Seq::filter);
            assert(all@.subrange(0, i + 1).drop_last() =~= all@.subrange(0, i as int));
            assert(all@.subrange(0, i + 1).last() == all@[i as int]);
        }
        if !contains_date(existing, all[i]) {
            out.push(all[i]);
        }
        i += 1;
    }
    proof {
        assert(all@.subrange(0, n as int) =~= all@);
        broadcast use vstd::seq_lib::group_filter_ensures;

        assert forall|d: Date| (#[trigger] out@.contains(d)) <==> (all@.contains(d)
            && !existing@.contains(d)) by {
            if out@.contains(d) {
                all@.lemma_filter_contains_rev(pred, d);
                let k = choose|k: int| 0 <= k < out@.len() && out@[k] == d;
                assert(pred(out@[k]));
            }
            if all@.contains(d) && !existing@.contains(d) {
                let k = choose|k: int| 0 <= k < all@.len() && all@[k] == d;
                all@.lemma_filter_contains(pred, k);
            }
        }
    }
    out
}

/// Whether `v` holds `d`.
pub fn contains_date(v: &Vec<Date>, d: Date) -> (b: bool)
    ensures
        b == v@.contains(d),
{
    let n = v.len();
    let mut i: usize = 0;
    while i < n
        invariant
            n == v@.len(),
            0 <= i <= n,
            forall|j: int| 0 <= j < i ==> v@[j] != d,
        decreases n - i,
    {
        if v[i] == d {
            return true;
        }
        i += 1;
    }
    false
}

} // verus!
