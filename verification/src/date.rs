//! Calendar dates, their validity, parsing, normalization and arithmetic.
//!
//! Every date the pipeline keeps is a valid proleptic-Gregorian civil date
//! with a year between 1 and 9999, carried in the literal `YYYY-MM-DD` form.

use vstd::prelude::*;
use crate::text;

verus! {

/// A civil calendar date.
#[derive(Clone, Copy, Debug, PartialEq, Eq, Structural)]
pub struct Date {
    pub y: u64,
    pub m: u64,
    pub d: u64,
}

/// Leap year rule of the Gregorian calendar.
pub open spec fn is_leap(y: int) -> bool {
    y % 4 == 0 && (y % 100 != 0 || y % 400 == 0)
}

/// Number of days in month `m` of year `y`.
pub open spec fn days_in_month(y: int, m: int) -> int {
    if m == 2 {
        if is_leap(y) {
            29
        } else {
            28
        }
    } else if m == 4 || m == 6 || m == 9 || m == 11 {
        30
    } else {
        31
    }
}

/// A valid civil date in the range this library supports.
pub open spec fn valid_date(y: int, m: int, d: int) -> bool {
    1 <= y <= 9999 && 1 <= m <= 12 && 1 <= d <= days_in_month(y, m)
}

impl Date {
    /// The date is a valid civil date.
    pub open spec fn wf(self) -> bool {
        valid_date(self.y as int, self.m as int, self.d as int)
    }
}

/// Number of days since 1970-01-01 of the date `(y, m, d)`.
///
/// This is the standard era-based day count of the civil calendar: years are
/// shifted so each era of 400 years holds exactly 146097 days, and the day
/// of year is computed from a March-based month index.
pub open spec fn day_number(y: int, m: int, d: int) -> int
    recommends
        valid_date(y, m, d),
{
    let yy = if m <= 2 {
        y - 1
    } else {
        y
    };
    let era = yy / 400;
    let yoe = yy - era * 400;
    let mp = if m > 2 {
        m - 3
    } else {
        m + 9
    };
    let doy = (153 * mp + 2) / 5 + d - 1;
    let doe = yoe * 365 + yoe / 4 - yoe / 100 + doy;
    era * 146097 + doe - 719468
}

/// Whether `y` is a leap year.
pub fn is_leap_exec(y: u64) -> (r: bool)
    ensures
        r == is_leap(y as int),
{
    y % 4 == 0 && (y % 100 != 0 || y % 400 == 0)
}

/// Number of days in month `m` of year `y`.
pub fn days_in_month_exec(y: u64, m: u64) -> (r: u64)
    ensures
        r as int == days_in_month(y as int, m as int),
{
    if m == 2 {
        if is_leap_exec(y) {
            29
        } else {
            28
        }
    } else if m == 4 || m == 6 || m == 9 || m == 11 {
        30
    } else {
        31
    }
}

/// Builds a date after checking that it is a valid civil date.
pub fn date_from_ymd(y: u64, m: u64, d: u64) -> (r: Option<Date>)
    ensures
        match r {
            Some(date) => valid_date(y as int, m as int, d as int) && date == (Date { y, m, d })
                && date.wf(),
            None => !valid_date(y as int, m as int, d as int),
        },
{
    if 1 <= y && y <= 9999 && 1 <= m && m <= 12 && 1 <= d && d <= days_in_month_exec(y, m) {
        Some(Date { y, m, d })
    } else {
        None
    }
}

/// Days since 1970-01-01.
pub fn day_number_of(date: &Date) -> (n: i64)
    requires
        date.wf(),
    ensures
        n as int == day_number(date.y as int, date.m as int, date.d as int),
{
    let yy: u64 = if date.m <= 2 {
        date.y - 1
    } else {
        date.y
    };
    let era: u64 = yy / 400;
    let yoe: u64 = yy - era * 400;
    let mp: u64 = if date.m > 2 {
        date.m - 3
    } else {
        date.m + 9
    };
    let doy: u64 = (153 * mp + 2) / 5 + date.d - 1;
    let doe: u64 = yoe * 365 + yoe / 4 - yoe / 100 + doy;
    (era * 146097 + doe) as i64 - 719468
}

/// Days from `today` until `end`: positive when `end` lies in the future.
pub fn days_until(end: &Date, today: &Date) -> (n: i64)
    requires
        end.wf(),
        today.wf(),
    ensures
        n as int == day_number(end.y as int, end.m as int, end.d as int) - day_number(
            today.y as int,
            today.m as int,
            today.d as int,
        ),
{
    day_number_of(end) - day_number_of(today)
}

/// `end` lies inside the deadline window: not before `today` and at most
/// `window` days after it.
pub open spec fn in_window(end: Date, today: Date, window: int) -> bool {
    let diff = day_number(end.y as int, end.m as int, end.d as int) - day_number(
        today.y as int,
        today.m as int,
        today.d as int,
    );
    0 <= diff <= window
}

/// Whether `end` falls inside the deadline window of `window` days.
pub fn in_window_exec(end: &Date, today: &Date, window: i64) -> (r: bool)
    requires
        end.wf(),
        today.wf(),
    ensures
        r == in_window(*end, *today, window as int),
{
    let diff = days_until(end, today);
    0 <= diff && diff <= window
}

/// A decimal digit.
pub open spec fn is_digit(c: char) -> bool {
    '0' <= c && c <= '9'
}

/// The numeric value of a digit character.
pub open spec fn digit_val(c: char) -> int {
    c as int - '0' as int
}

/// Executable mirror of [`is_digit`].
pub fn is_digit_char(c: char) -> (r: bool)
    ensures
        r == is_digit(c),
{
    '0' <= c && c <= '9'
}

/// The numeric value of a digit character.
pub fn digit_val_char(c: char) -> (v: u64)
    requires
        is_digit(c),
    ensures
        v as int == digit_val(c),
{
    (c as u32 - '0' as u32) as u64
}

/// The first 10 characters of `s` have the shape `DDDD-DD-DD` with decimal
/// digits at the digit positions.
pub open spec fn ymd_shape(s: Seq<char>) -> bool {
    &&& s.len() >= 10
    &&& is_digit(s[0])
    &&& is_digit(s[1])
    &&& is_digit(s[2])
    &&& is_digit(s[3])
    &&& s[4] == '-'
    &&& is_digit(s[5])
    &&& is_digit(s[6])
    &&& s[7] == '-'
    &&& is_digit(s[8])
    &&& is_digit(s[9])
}

/// The year encoded in the first four characters.
pub open spec fn ymd_year(s: Seq<char>) -> int {
    digit_val(s[0]) * 1000 + digit_val(s[1]) * 100 + digit_val(s[2]) * 10 + digit_val(s[3])
}

/// The month encoded at positions 5 and 6.
pub open spec fn ymd_month(s: Seq<char>) -> int {
    digit_val(s[5]) * 10 + digit_val(s[6])
}

/// The day encoded at positions 8 and 9.
pub open spec fn ymd_day(s: Seq<char>) -> int {
    digit_val(s[8]) * 10 + digit_val(s[9])
}

/// The date written at the head of `s` as `YYYY-MM-DD`, when that prefix has
/// the right shape and names a valid civil date.
pub open spec fn parse_ymd_prefix_spec(s: Seq<char>) -> Option<Date> {
    if ymd_shape(s) && valid_date(ymd_year(s), ymd_month(s), ymd_day(s)) {
        Some(
            Date {
                y: ymd_year(s) as u64,
                m: ymd_month(s) as u64,
                d: ymd_day(s) as u64,
            },
        )
    } else {
        None
    }
}

/// The date written as exactly `YYYY-MM-DD`: as the prefix form, with
/// nothing after the day.
pub open spec fn parse_ymd_spec(s: Seq<char>) -> Option<Date> {
    if s.len() == 10 {
        parse_ymd_prefix_spec(s)
    } else {
        None
    }
}

/// Parses the date written at the head of `v`, ignoring anything after the
/// first 10 characters.
pub fn parse_ymd_prefix(v: &Vec<char>) -> (r: Option<Date>)
    ensures
        r == parse_ymd_prefix_spec(v@),
{
    if v.len() < 10 {
        return None;
    }
    if !(is_digit_char(v[0]) && is_digit_char(v[1]) && is_digit_char(v[2]) && is_digit_char(v[3])
        && v[4] == '-' && is_digit_char(v[5]) && is_digit_char(v[6]) && v[7] == '-'
        && is_digit_char(v[8]) && is_digit_char(v[9])) {
        return None;
    }
    let y = digit_val_char(v[0]) * 1000 + digit_val_char(v[1]) * 100 + digit_val_char(v[2]) * 10
        + digit_val_char(v[3]);
    let m = digit_val_char(v[5]) * 10 + digit_val_char(v[6]);
    let d = digit_val_char(v[8]) * 10 + digit_val_char(v[9]);
    date_from_ymd(y, m, d)
}

/// Parses a date written as exactly `YYYY-MM-DD`.
pub fn parse_ymd(v: &Vec<char>) -> (r: Option<Date>)
    ensures
        r == parse_ymd_spec(v@),
{
    if v.len() != 10 {
        return None;
    }
    parse_ymd_prefix(v)
}

/// The canonical `YYYY-MM-DD` writing of a date.
pub open spec fn fmt_date_spec(date: Date) -> Seq<char> {
    text::pad_zeros(text::dec_rep(date.y as nat), 4) + seq!['-'] + text::pad_zeros(
        text::dec_rep(date.m as nat),
        2,
    ) + seq!['-'] + text::pad_zeros(text::dec_rep(date.d as nat), 2)
}

/// Writes a date as `YYYY-MM-DD`.
pub fn fmt_date(date: &Date) -> (r: Vec<char>)
    requires
        date.wf(),
    ensures
        r@ == fmt_date_spec(*date),
{
    let mut r = text::fmt_u64_pad(date.y, 4);
    r.push('-');
    let mm = text::fmt_u64_pad(date.m, 2);
    text::push_all(&mut r, &mm);
    r.push('-');
    let dd = text::fmt_u64_pad(date.d, 2);
    text::push_all(&mut r, &dd);
    proof {
        assert(r@ =~= fmt_date_spec(*date));
    }
    r
}

/// A date-field separator accepted on input.
pub open spec fn is_dsep(c: char) -> bool {
    c == '-' || c == '.' || c == '/'
}

/// Executable mirror of [`is_dsep`].
pub fn is_dsep_char(c: char) -> (r: bool)
    ensures
        r == is_dsep(c),
{
    c == '-' || c == '.' || c == '/'
}

/// The end of the run of digits that starts at `i`.
pub open spec fn digit_run_end(s: Seq<char>, i: int) -> int
    decreases s.len() - i when 0 <= i <= s.len()
{
    if i < s.len() && is_digit(s[i]) {
        digit_run_end(s, i + 1)
    } else {
        i
    }
}

proof fn lemma_digit_run(s: Seq<char>, i: int, j: int)
    requires
        0 <= i <= j <= s.len(),
        forall|k: int| i <= k < j ==> is_digit(s[k]),
        j == s.len() || !is_digit(s[j]),
    ensures
        digit_run_end(s, i) == j,
    decreases j - i,
{
    if i < j {
        lemma_digit_run(s, i + 1, j);
    }
}

/// `digit_run_end` stays inside the sequence.
pub proof fn lemma_digit_run_bounds(s: Seq<char>, i: int)
    requires
        0 <= i <= s.len(),
    ensures
        i <= digit_run_end(s, i) <= s.len(),
    decreases s.len() - i,
{
    if i < s.len() && is_digit(s[i]) {
        lemma_digit_run_bounds(s, i + 1);
    }
}

/// The end of the run of digits that starts at `i`.
pub fn digit_run_end_exec(t: &Vec<char>, i: usize) -> (j: usize)
    requires
        i <= t@.len(),
    ensures
        j as int == digit_run_end(t@, i as int),
        i <= j <= t@.len(),
{
    let mut j = i;
    while j < t.len() && is_digit_char(t[j])
        invariant
            i <= j <= t@.len(),
            forall|k: int| i <= k < j ==> is_digit(t@[k]),
        decreases t@.len() - j,
    {
        j += 1;
    }
    proof {
        lemma_digit_run(t@, i as int, j as int);
    }
    j
}

/// The trimmed text starts with digit groups of widths 4, 1-2 and 1-2,
/// separated by single `-`, `.` or `/` characters.
pub open spec fn canon_groups_ok(t: Seq<char>) -> bool {
    let e1 = digit_run_end(t, 0);
    &&& e1 == 4
    &&& e1 < t.len()
    &&& is_dsep(t[e1])
    &&& {
        let e2 = digit_run_end(t, e1 + 1);
        &&& 1 <= e2 - (e1 + 1) <= 2
        &&& e2 < t.len()
        &&& is_dsep(t[e2])
        &&& {
            let e3 = digit_run_end(t, e2 + 1);
            1 <= e3 - (e2 + 1) <= 2
        }
    }
}

/// A one-digit group zero-padded to two digits.
pub open spec fn pad2g(g: Seq<char>) -> Seq<char> {
    if g.len() == 1 {
        seq!['0'] + g
    } else {
        g
    }
}

/// Date canonicalization. The input is trimmed; when it starts with a
/// `year sep month sep day` digit-group shape, the groups are rewritten with
/// `-` separators and zero-padded month and day and anything after the day
/// group is dropped. Otherwise `.` and `/` become `-` and the text is
/// truncated to 10 characters; a shorter text is kept as it is, and callers
/// treat whatever does not parse as a date as unusable.
pub open spec fn canon_spec(s: Seq<char>) -> Seq<char> {
    let t = text::trim_spec(s);
    if canon_groups_ok(t) {
        let e2 = digit_run_end(t, 5);
        let e3 = digit_run_end(t, e2 + 1);
        t.subrange(0, 4) + seq!['-'] + pad2g(t.subrange(5, e2)) + seq!['-'] + pad2g(
            t.subrange(e2 + 1, e3),
        )
    } else {
        let u = t.map_values(|c: char| if c == '.' || c == '/' { '-' } else { c });
        if u.len() >= 10 {
            u.subrange(0, 10)
        } else {
            u
        }
    }
}

fn push_group_padded(out: &mut Vec<char>, t: &Vec<char>, from: usize, to: usize)
    requires
        from <= to <= t@.len(),
    ensures
        final(out)@ == old(out)@ + pad2g(t@.subrange(from as int, to as int)),
{
    if to - from == 1 {
        out.push('0');
        out.push(t[from]);
        proof {
            assert(out@ =~= old(out)@ + pad2g(t@.subrange(from as int, to as int)));
        }
    } else {
        let g = text::copy_range(t, from, to);
        text::push_all(out, &g);
    }
}

/// Canonicalizes a date-like text to the literal `YYYY-MM-DD` form where its
/// shape allows it; see [`canon_spec`].
pub fn canon_date(v: &Vec<char>) -> (r: Vec<char>)
    ensures
        r@ == canon_spec(v@),
{
    let t = text::trim_chars(v);
    let e1 = digit_run_end_exec(&t, 0);
    if e1 == 4 && e1 < t.len() && is_dsep_char(t[e1]) {
        let e2 = digit_run_end_exec(&t, e1 + 1);
        if 1 <= e2 - (e1 + 1) && e2 - (e1 + 1) <= 2 && e2 < t.len() && is_dsep_char(t[e2]) {
            let e3 = digit_run_end_exec(&t, e2 + 1);
            if 1 <= e3 - (e2 + 1) && e3 - (e2 + 1) <= 2 {
                let mut out = text::copy_range(&t, 0, 4);
                out.push('-');
                push_group_padded(&mut out, &t, 5, e2);
                out.push('-');
                push_group_padded(&mut out, &t, e2 + 1, e3);
                proof {
                    assert(out@ =~= canon_spec(v@));
                }
                return out;
            }
        }
    }
    let mut u: Vec<char> = Vec::new();
    let mut i: usize = 0;
    while i < t.len()
        invariant
            i <= t@.len(),
            u@ == t@.subrange(0, i as int).map_values(
                |c: char| if c == '.' || c == '/' {
                    '-'
                } else {
                    c
                },
            ),
        decreases t@.len() - i,
    {
        let c = t[i];
        if c == '.' || c == '/' {
            u.push('-');
        } else {
            u.push(c);
        }
        i += 1;
        proof {
            assert(u@ =~= t@.subrange(0, i as int).map_values(
                |c: char| if c == '.' || c == '/' {
                    '-'
                } else {
                    c
                },
            ));
        }
    }
    proof {
        assert(t@.subrange(0, t@.len() as int) =~= t@);
    }
    if u.len() >= 10 {
        let r = text::copy_range(&u, 0, 10);
        r
    } else {
        u
    }
}

/// Relies on `chrono::Local::now` and `NaiveDate`'s accessors for the
/// current local civil date; which date comes back depends on the clock and
/// the time zone, so only the documented field ranges are assumed.
#[verifier::external_body]
fn today_ymd() -> (r: (i32, u32, u32))
    ensures
        1 <= r.1 <= 12,
        1 <= r.2 <= 31,
{
    let d = chrono::Local::now().date_naive();
    (chrono::Datelike::year(&d), chrono::Datelike::month(&d), chrono::Datelike::day(&d))
}

/// The current local date, when it falls inside the library's supported
/// year range.
pub fn current_date() -> (r: Option<Date>)
    ensures
        r matches Some(d) ==> d.wf(),
{
    let (y, m, d) = today_ymd();
    if 1 <= y && y <= 9999 {
        date_from_ymd(y as u64, m as u64, d as u64)
    } else {
        None
    }
}

} // verus!
