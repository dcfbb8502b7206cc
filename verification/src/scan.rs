//! Pattern scanners for the free-text grammars the extractors understand:
//! numeric and localized date ranges, script-block field assignments, and
//! label-anchored organizer phrases.

use vstd::prelude::*;
use crate::date;
use crate::date::{digit_run_end, is_digit, digit_val, is_dsep, lemma_digit_run_bounds};
use crate::text;
use crate::text::is_space;

verus! {

/// The end of the run of blanks that starts at `i`.
pub open spec fn ws_run_end(s: Seq<char>, i: int) -> int
    decreases s.len() - i when 0 <= i <= s.len()
{
    if i < s.len() && is_space(s[i]) {
        ws_run_end(s, i + 1)
    } else {
        i
    }
}

/// `ws_run_end` stays inside the sequence.
pub proof fn lemma_ws_run_bounds(s: Seq<char>, i: int)
    requires
        0 <= i <= s.len(),
    ensures
        i <= ws_run_end(s, i) <= s.len(),
    decreases s.len() - i,
{
    if i < s.len() && is_space(s[i]) {
        lemma_ws_run_bounds(s, i + 1);
    }
}

/// The end of the run of blanks that starts at `i`.
pub fn ws_run_end_exec(t: &Vec<char>, i: usize) -> (j: usize)
    requires
        i <= t@.len(),
    ensures
        j as int == ws_run_end(t@, i as int),
        i <= j <= t@.len(),
{
    let mut j = i;
    while j < t.len() && text::is_space_char(t[j])
        invariant
            i <= j <= t@.len(),
            ws_run_end(t@, i as int) == ws_run_end(t@, j as int),
        decreases t@.len() - j,
    {
        j += 1;
    }
    j
}

/// Ten to the `k`.
pub open spec fn pow10(k: int) -> int
    decreases k,
{
    if k <= 0 {
        1
    } else {
        10 * pow10(k - 1)
    }
}

/// The number written by the digits `s[i..j)`, read left to right.
pub open spec fn digits_val(s: Seq<char>, i: int, j: int) -> int
    decreases j - i when i <= j
{
    if j <= i {
        0
    } else {
        digits_val(s, i, j - 1) * 10 + digit_val(s[j - 1])
    }
}

/// The number written by the digits `t[i..j)`.
pub fn digits_val_exec(t: &Vec<char>, i: usize, j: usize) -> (v: u64)
    requires
        i <= j <= t@.len(),
        j - i <= 4,
        forall|k: int| i <= k < j ==> is_digit(t@[k]),
    ensures
        v as int == digits_val(t@, i as int, j as int),
        v <= 9999,
{
    let mut v: u64 = 0;
    let mut k = i;
    while k < j
        invariant
            i <= k <= j <= t@.len(),
            j - i <= 4,
            forall|m: int| i <= m < j ==> is_digit(t@[m]),
            v as int == digits_val(t@, i as int, k as int),
            (v as int) < pow10(k - i),
        decreases j - k,
    {
        proof {
            assert(pow10(0) == 1);
            assert(pow10(1) == 10);
            assert(pow10(2) == 100);
            assert(pow10(3) == 1000);
            assert(k - i <= 3);
            assert(pow10((k - i) as int) <= 1000);
        }
        v = v * 10 + date::digit_val_char(t[k]);
        k += 1;
    }
    proof {
        assert(pow10(0) == 1);
        assert(pow10(1) == 10);
        assert(pow10(2) == 100);
        assert(pow10(3) == 1000);
        assert(pow10(4) == 10000);
        assert(pow10((j - i) as int) <= 10000);
    }
    v
}

/// A range separator between the two sides of a date range.
pub open spec fn is_range_sep(c: char) -> bool {
    c == '~' || c == '-' || c == '–'
}

/// Executable mirror of [`is_range_sep`].
pub fn is_range_sep_char(c: char) -> (r: bool)
    ensures
        r == is_range_sep(c),
{
    c == '~' || c == '-' || c == '–'
}

/// A numeric date written at `i`: a four-digit year starting `20`, a
/// separator, one or two month digits, a separator, one or two day digits,
/// each group a maximal digit run. Yields `(year, month, day, end)`.
pub open spec fn numeric_date_at(s: Seq<char>, i: int) -> Option<(int, int, int, int)>
    recommends
        0 <= i <= s.len(),
{
    let r1 = digit_run_end(s, i);
    if r1 - i == 4 && s[i] == '2' && s[i + 1] == '0' && r1 < s.len() && is_dsep(s[r1]) {
        let r2 = digit_run_end(s, r1 + 1);
        if 1 <= r2 - (r1 + 1) <= 2 && r2 < s.len() && is_dsep(s[r2]) {
            let r3 = digit_run_end(s, r2 + 1);
            if 1 <= r3 - (r2 + 1) <= 2 {
                Some(
                    (
                        digits_val(s, i, r1),
                        digits_val(s, r1 + 1, r2),
                        digits_val(s, r2 + 1, r3),
                        r3,
                    ),
                )
            } else {
                None
            }
        } else {
            None
        }
    } else {
        None
    }
}

/// A numeric date range at `i`: two numeric dates joined by
/// `blanks, range separator, blanks`. Yields
/// `(y1, m1, d1, y2, m2, d2, end)`.
pub open spec fn numeric_range_at(s: Seq<char>, i: int) -> Option<(int, int, int, int, int, int, int)>
    recommends
        0 <= i <= s.len(),
{
    match numeric_date_at(s, i) {
        Some((y1, m1, d1, e1)) => {
            let w = ws_run_end(s, e1);
            if w < s.len() && is_range_sep(s[w]) {
                let w2 = ws_run_end(s, w + 1);
                match numeric_date_at(s, w2) {
                    Some((y2, m2, d2, e2)) => Some((y1, m1, d1, y2, m2, d2, e2)),
                    None => None,
                }
            } else {
                None
            }
        },
        None => None,
    }
}

/// The first numeric date range in `s` at or after `i`.
pub open spec fn first_numeric_range(s: Seq<char>, i: int) -> Option<(int, int, int, int, int, int, int)>
    decreases s.len() - i when 0 <= i <= s.len()
{
    if i >= s.len() {
        None
    } else if numeric_range_at(s, i) is Some {
        numeric_range_at(s, i)
    } else {
        first_numeric_range(s, i + 1)
    }
}

/// Matches a numeric date at `i`; see [`numeric_date_at`].
pub fn numeric_date_at_exec(t: &Vec<char>, i: usize) -> (r: Option<(u64, u64, u64, usize)>)
    requires
        i <= t@.len(),
    ensures
        match r {
            Some(h) => {
                &&& numeric_date_at(t@, i as int) == Some(
                    (h.0 as int, h.1 as int, h.2 as int, h.3 as int),
                )
                &&& i < h.3 <= t@.len()
                &&& h.0 <= 9999
                &&& h.1 <= 9999
                &&& h.2 <= 9999
            },
            None => numeric_date_at(t@, i as int) is None,
        },
{
    let r1 = date::digit_run_end_exec(t, i);
    if !(r1 - i == 4 && t[i] == '2' && t[i + 1] == '0' && r1 < t.len() && date::is_dsep_char(
        t[r1],
    )) {
        return None;
    }
    let r2 = date::digit_run_end_exec(t, r1 + 1);
    if !(1 <= r2 - (r1 + 1) && r2 - (r1 + 1) <= 2 && r2 < t.len() && date::is_dsep_char(t[r2])) {
        return None;
    }
    let r3 = date::digit_run_end_exec(t, r2 + 1);
    if !(1 <= r3 - (r2 + 1) && r3 - (r2 + 1) <= 2) {
        return None;
    }
    proof {
        lemma_digit_run(t@, i as int);
        lemma_digit_run(t@, r1 as int + 1);
        lemma_digit_run(t@, r2 as int + 1);
    }
    let y = digits_val_exec(t, i, r1);
    let m = digits_val_exec(t, r1 + 1, r2);
    let d = digits_val_exec(t, r2 + 1, r3);
    Some((y, m, d, r3))
}

proof fn lemma_digit_run(s: Seq<char>, i: int)
    requires
        0 <= i <= s.len(),
    ensures
        forall|k: int| i <= k < digit_run_end(s, i) ==> is_digit(s[k]),
        i <= digit_run_end(s, i) <= s.len(),
    decreases s.len() - i,
{
    lemma_digit_run_bounds(s, i);
    if i < s.len() && is_digit(s[i]) {
        lemma_digit_run(s, i + 1);
        assert forall|k: int| i <= k < digit_run_end(s, i) implies is_digit(s[k]) by {
            if k > i {
                assert(is_digit(s[k]));
            }
        }
    }
}

/// Matches a numeric date range at `i`; see [`numeric_range_at`].
pub fn numeric_range_at_exec(t: &Vec<char>, i: usize) -> (r: Option<(u64, u64, u64, u64, u64, u64, usize)>)
    requires
        i <= t@.len(),
    ensures
        match r {
            Some(h) => numeric_range_at(t@, i as int) == Some(
                (h.0 as int, h.1 as int, h.2 as int, h.3 as int, h.4 as int, h.5 as int, h.6 as int),
            ) && h.0 <= 9999 && h.1 <= 9999 && h.2 <= 9999 && h.3 <= 9999 && h.4 <= 9999 && h.5
                <= 9999,
            None => numeric_range_at(t@, i as int) is None,
        },
{
    match numeric_date_at_exec(t, i) {
        Some((y1, m1, d1, e1)) => {
            let w = ws_run_end_exec(t, e1);
            if w < t.len() && is_range_sep_char(t[w]) {
                let w2 = ws_run_end_exec(t, w + 1);
                match numeric_date_at_exec(t, w2) {
                    Some((y2, m2, d2, e2)) => Some((y1, m1, d1, y2, m2, d2, e2)),
                    None => None,
                }
            } else {
                None
            }
        },
        None => None,
    }
}

/// Finds the first numeric date range in `t`; see [`first_numeric_range`].
pub fn first_numeric_range_exec(t: &Vec<char>) -> (r: Option<(u64, u64, u64, u64, u64, u64)>)
    ensures
        match (r, first_numeric_range(t@, 0)) {
            (Some(h), Some(g)) => g.0 == h.0 as int && g.1 == h.1 as int && g.2 == h.2 as int
                && g.3 == h.3 as int && g.4 == h.4 as int && g.5 == h.5 as int && h.0 <= 9999
                && h.1 <= 9999 && h.2 <= 9999 && h.3 <= 9999 && h.4 <= 9999 && h.5 <= 9999,
            (None, None) => true,
            _ => false,
        },
{
    let mut i: usize = 0;
    while i < t.len()
        invariant
            i <= t@.len(),
            first_numeric_range(t@, 0) == first_numeric_range(t@, i as int),
        decreases t@.len() - i,
    {
        if let Some(h) = numeric_range_at_exec(t, i) {
            proof {
                assert(first_numeric_range(t@, 0) == Some(
                    (
                        h.0 as int,
                        h.1 as int,
                        h.2 as int,
                        h.3 as int,
                        h.4 as int,
                        h.5 as int,
                        h.6 as int,
                    ),
                ));
            }
            return Some((h.0, h.1, h.2, h.3, h.4, h.5));
        }
        i += 1;
    }
    None
}

/// A localized `M월 D일` phrase: month digits, `월`, day digits, `일`, with
/// blanks allowed between the tokens.
pub ghost struct KrMd {
    pub m: int,
    pub d: int,
    pub end: int,
}

/// One side of a localized date range: an optional `YYYY년` year before the
/// month-day phrase.
pub ghost struct KrSide {
    pub has_year: bool,
    pub year: int,
    pub md: KrMd,
}

/// A localized date range: two sides joined by a range separator, with an
/// optional parenthesized remark (a weekday) after the first side.
pub ghost struct KrRange {
    pub side1: KrSide,
    pub side2: KrSide,
}

/// The `M월 D일` phrase written at `i`.
pub open spec fn kr_md_at(s: Seq<char>, i: int) -> Option<KrMd>
    recommends
        0 <= i <= s.len(),
{
    let rm = digit_run_end(s, i);
    let wm = ws_run_end(s, rm);
    if 1 <= rm - i <= 2 && wm < s.len() && s[wm] == '월' {
        let j = ws_run_end(s, wm + 1);
        let rd = digit_run_end(s, j);
        let wd = ws_run_end(s, rd);
        if 1 <= rd - j <= 2 && wd < s.len() && s[wd] == '일' {
            Some(KrMd { m: digits_val(s, i, rm), d: digits_val(s, j, rd), end: wd + 1 })
        } else {
            None
        }
    } else {
        None
    }
}

/// The optional-year side written at `i`.
pub open spec fn kr_side_at(s: Seq<char>, i: int) -> Option<KrSide>
    recommends
        0 <= i <= s.len(),
{
    let r1 = digit_run_end(s, i);
    let w = ws_run_end(s, r1);
    if r1 - i == 4 && s[i] == '2' && s[i + 1] == '0' && w < s.len() && s[w] == '년' {
        let j = ws_run_end(s, w + 1);
        match kr_md_at(s, j) {
            Some(md) => Some(KrSide { has_year: true, year: digits_val(s, i, r1), md }),
            None => None,
        }
    } else {
        match kr_md_at(s, i) {
            Some(md) => Some(KrSide { has_year: false, year: 0, md }),
            None => None,
        }
    }
}

/// The first `)` at or after `i`.
pub open spec fn close_paren_end(s: Seq<char>, i: int) -> Option<int>
    decreases s.len() - i when 0 <= i <= s.len()
{
    if i >= s.len() {
        None
    } else if s[i] == ')' {
        Some(i)
    } else {
        close_paren_end(s, i + 1)
    }
}

/// The position after an optional parenthesized remark starting at `e`.
pub open spec fn kr_after_paren(s: Seq<char>, e: int) -> int
    recommends
        0 <= e <= s.len(),
{
    if e < s.len() && s[e] == '(' {
        match close_paren_end(s, e + 1) {
            Some(q) => q + 1,
            None => e,
        }
    } else {
        e
    }
}

/// The localized date range written at `i`.
pub open spec fn kr_range_at(s: Seq<char>, i: int) -> Option<KrRange>
    recommends
        0 <= i <= s.len(),
{
    match kr_side_at(s, i) {
        Some(s1) => {
            let p = kr_after_paren(s, s1.md.end);
            let w = ws_run_end(s, p);
            if 0 <= p <= s.len() && w < s.len() && is_range_sep(s[w]) {
                let w2 = ws_run_end(s, w + 1);
                match kr_side_at(s, w2) {
                    Some(s2) => Some(KrRange { side1: s1, side2: s2 }),
                    None => None,
                }
            } else {
                None
            }
        },
        None => None,
    }
}

/// The first localized date range in `s` at or after `i`.
pub open spec fn first_kr_range(s: Seq<char>, i: int) -> Option<KrRange>
    decreases s.len() - i when 0 <= i <= s.len()
{
    if i >= s.len() {
        None
    } else if kr_range_at(s, i) is Some {
        kr_range_at(s, i)
    } else {
        first_kr_range(s, i + 1)
    }
}

/// A deadline marker word begins at `i`.
pub open spec fn deadline_marker_at(s: Seq<char>, i: int) -> bool {
    ||| text::matches_at(s, "마감"@, i)
    ||| text::matches_at(s, "까지"@, i)
    ||| text::matches_at(s, "접수마감"@, i)
}

/// A localized single date read as a deadline at `i`: an optional-year
/// side whose phrase is followed, after blanks, by a deadline marker word.
pub open spec fn kr_deadline_at(s: Seq<char>, i: int) -> Option<KrSide>
    recommends
        0 <= i <= s.len(),
{
    match kr_side_at(s, i) {
        Some(sd) => {
            let w = ws_run_end(s, sd.md.end);
            if deadline_marker_at(s, w) {
                Some(sd)
            } else {
                None
            }
        },
        None => None,
    }
}

/// The first marker-anchored single date in `s` at or after `i`.
pub open spec fn first_kr_deadline(s: Seq<char>, i: int) -> Option<KrSide>
    decreases s.len() - i when 0 <= i <= s.len()
{
    if i >= s.len() {
        None
    } else if kr_deadline_at(s, i) is Some {
        kr_deadline_at(s, i)
    } else {
        first_kr_deadline(s, i + 1)
    }
}

/// Matches a `M월 D일` phrase at `i`; see [`kr_md_at`].
fn kr_md_at_exec(t: &Vec<char>, i: usize) -> (r: Option<(u64, u64, usize)>)
    requires
        i <= t@.len(),
    ensures
        match (r, kr_md_at(t@, i as int)) {
            (Some(h), Some(g)) => g.m == h.0 as int && g.d == h.1 as int && g.end == h.2 as int
                && i < h.2 <= t@.len() && h.0 <= 9999 && h.1 <= 9999,
            (None, None) => true,
            _ => false,
        },
{
    let rm = date::digit_run_end_exec(t, i);
    let wm = ws_run_end_exec(t, rm);
    if !(1 <= rm - i && rm - i <= 2 && wm < t.len() && t[wm] == '월') {
        return None;
    }
    let j = ws_run_end_exec(t, wm + 1);
    let rd = date::digit_run_end_exec(t, j);
    let wd = ws_run_end_exec(t, rd);
    if !(1 <= rd - j && rd - j <= 2 && wd < t.len() && t[wd] == '일') {
        return None;
    }
    proof {
        lemma_digit_run(t@, i as int);
        lemma_digit_run(t@, j as int);
    }
    let m = digits_val_exec(t, i, rm);
    let d = digits_val_exec(t, j, rd);
    Some((m, d, wd + 1))
}

/// Matches an optional-year side at `i`; see [`kr_side_at`].
fn kr_side_at_exec(t: &Vec<char>, i: usize) -> (r: Option<(bool, u64, u64, u64, usize)>)
    requires
        i <= t@.len(),
    ensures
        match (r, kr_side_at(t@, i as int)) {
            (Some(h), Some(g)) => g.has_year == h.0 && g.year == h.1 as int && g.md.m == h.2 as int
                && g.md.d == h.3 as int && g.md.end == h.4 as int && i < h.4 <= t@.len() && h.1
                <= 9999 && h.2 <= 9999 && h.3 <= 9999,
            (None, None) => true,
            _ => false,
        },
{
    let r1 = date::digit_run_end_exec(t, i);
    let w = ws_run_end_exec(t, r1);
    if r1 - i == 4 && t[i] == '2' && t[i + 1] == '0' && w < t.len() && t[w] == '년' {
        let j = ws_run_end_exec(t, w + 1);
        match kr_md_at_exec(t, j) {
            Some(md) => {
                proof {
                    lemma_digit_run(t@, i as int);
                }
                let y = digits_val_exec(t, i, r1);
                Some((true, y, md.0, md.1, md.2))
            },
            None => None,
        }
    } else {
        match kr_md_at_exec(t, i) {
            Some(md) => Some((false, 0, md.0, md.1, md.2)),
            None => None,
        }
    }
}

fn close_paren_exec(t: &Vec<char>, i: usize) -> (r: Option<usize>)
    requires
        i <= t@.len(),
    ensures
        match (r, close_paren_end(t@, i as int)) {
            (Some(h), Some(g)) => g == h as int && i <= h < t@.len(),
            (None, None) => true,
            _ => false,
        },
{
    let mut j = i;
    while j < t.len()
        invariant
            i <= j <= t@.len(),
            close_paren_end(t@, i as int) == close_paren_end(t@, j as int),
        decreases t@.len() - j,
    {
        if t[j] == ')' {
            return Some(j);
        }
        j += 1;
    }
    None
}

/// Matches a localized date range at `i`; see [`kr_range_at`].
fn kr_range_at_exec(t: &Vec<char>, i: usize) -> (r: Option<
    ((bool, u64, u64, u64), (bool, u64, u64, u64)),
>)
    requires
        i <= t@.len(),
    ensures
        match (r, kr_range_at(t@, i as int)) {
            (Some(h), Some(g)) => {
                &&& g.side1.has_year == h.0.0
                &&& g.side1.year == h.0.1 as int
                &&& g.side1.md.m == h.0.2 as int
                &&& g.side1.md.d == h.0.3 as int
                &&& g.side2.has_year == h.1.0
                &&& g.side2.year == h.1.1 as int
                &&& g.side2.md.m == h.1.2 as int
                &&& g.side2.md.d == h.1.3 as int
                &&& h.0.1 <= 9999
                &&& h.0.2 <= 9999
                &&& h.0.3 <= 9999
                &&& h.1.1 <= 9999
                &&& h.1.2 <= 9999
                &&& h.1.3 <= 9999
            },
            (None, None) => true,
            _ => false,
        },
{
    match kr_side_at_exec(t, i) {
        Some(s1) => {
            let e1 = s1.4;
            let p: usize = if e1 < t.len() && t[e1] == '(' {
                match close_paren_exec(t, e1 + 1) {
                    Some(q) => q + 1,
                    None => e1,
                }
            } else {
                e1
            };
            let w = ws_run_end_exec(t, p);
            if w < t.len() && is_range_sep_char(t[w]) {
                let w2 = ws_run_end_exec(t, w + 1);
                match kr_side_at_exec(t, w2) {
                    Some(s2) => Some(((s1.0, s1.1, s1.2, s1.3), (s2.0, s2.1, s2.2, s2.3))),
                    None => None,
                }
            } else {
                None
            }
        },
        None => None,
    }
}

/// Finds the first localized date range in `t`; see [`first_kr_range`].
pub fn first_kr_range_exec(t: &Vec<char>) -> (r: Option<
    ((bool, u64, u64, u64), (bool, u64, u64, u64)),
>)
    ensures
        match (r, first_kr_range(t@, 0)) {
            (Some(h), Some(g)) => {
                &&& g.side1.has_year == h.0.0
                &&& g.side1.year == h.0.1 as int
                &&& g.side1.md.m == h.0.2 as int
                &&& g.side1.md.d == h.0.3 as int
                &&& g.side2.has_year == h.1.0
                &&& g.side2.year == h.1.1 as int
                &&& g.side2.md.m == h.1.2 as int
                &&& g.side2.md.d == h.1.3 as int
                &&& h.0.1 <= 9999
                &&& h.0.2 <= 9999
                &&& h.0.3 <= 9999
                &&& h.1.1 <= 9999
                &&& h.1.2 <= 9999
                &&& h.1.3 <= 9999
            },
            (None, None) => true,
            _ => false,
        },
{
    let mut i: usize = 0;
    while i < t.len()
        invariant
            i <= t@.len(),
            first_kr_range(t@, 0) == first_kr_range(t@, i as int),
        decreases t@.len() - i,
    {
        if let Some(h) = kr_range_at_exec(t, i) {
            return Some(h);
        }
        i += 1;
    }
    None
}

fn deadline_marker_at_exec(t: &Vec<char>, i: usize) -> (r: bool)
    requires
        i <= t@.len(),
    ensures
        r == deadline_marker_at(t@, i as int),
{
    proof {
        reveal_strlit("마감");
        reveal_strlit("까지");
        reveal_strlit("접수마감");
    }
    let m1 = text::chars_of("마감");
    let m2 = text::chars_of("까지");
    let m3 = text::chars_of("접수마감");
    let hit2 = t.len() - i >= 2 && (text::matches_at_exec(t, &m1, i) || text::matches_at_exec(
        t,
        &m2,
        i,
    ));
    let hit4 = t.len() - i >= 4 && text::matches_at_exec(t, &m3, i);
    proof {
        if t@.len() - i < 2 {
            assert(!text::matches_at(t@, "마감"@, i as int));
            assert(!text::matches_at(t@, "까지"@, i as int));
        }
        if t@.len() - i < 4 {
            assert(!text::matches_at(t@, "접수마감"@, i as int));
        }
    }
    hit2 || hit4
}

fn kr_deadline_at_exec(t: &Vec<char>, i: usize) -> (r: Option<(bool, u64, u64, u64)>)
    requires
        i <= t@.len(),
    ensures
        match (r, kr_deadline_at(t@, i as int)) {
            (Some(h), Some(g)) => g.has_year == h.0 && g.year == h.1 as int && g.md.m == h.2 as int
                && g.md.d == h.3 as int && h.1 <= 9999 && h.2 <= 9999 && h.3 <= 9999,
            (None, None) => true,
            _ => false,
        },
{
    match kr_side_at_exec(t, i) {
        Some(h) => {
            let w = ws_run_end_exec(t, h.4);
            if deadline_marker_at_exec(t, w) {
                Some((h.0, h.1, h.2, h.3))
            } else {
                None
            }
        },
        None => None,
    }
}

/// Finds the first marker-anchored single date in `t`; see
/// [`first_kr_deadline`].
pub fn first_kr_deadline_exec(t: &Vec<char>) -> (r: Option<(bool, u64, u64, u64)>)
    ensures
        match (r, first_kr_deadline(t@, 0)) {
            (Some(h), Some(g)) => g.has_year == h.0 && g.year == h.1 as int && g.md.m == h.2 as int
                && g.md.d == h.3 as int && h.1 <= 9999 && h.2 <= 9999 && h.3 <= 9999,
            (None, None) => true,
            _ => false,
        },
{
    let mut i: usize = 0;
    while i < t.len()
        invariant
            i <= t@.len(),
            first_kr_deadline(t@, 0) == first_kr_deadline(t@, i as int),
        decreases t@.len() - i,
    {
        if let Some(h) = kr_deadline_at_exec(t, i) {
            return Some(h);
        }
        i += 1;
    }
    None
}

/// The `DDDD sep DD sep DD` shape at `p`, with ten characters.
pub open spec fn quoted_date_shape(s: Seq<char>, p: int) -> bool {
    &&& p + 10 <= s.len()
    &&& is_digit(s[p])
    &&& is_digit(s[p + 1])
    &&& is_digit(s[p + 2])
    &&& is_digit(s[p + 3])
    &&& is_dsep(s[p + 4])
    &&& is_digit(s[p + 5])
    &&& is_digit(s[p + 6])
    &&& is_dsep(s[p + 7])
    &&& is_digit(s[p + 8])
    &&& is_digit(s[p + 9])
}

/// A `key : "date"` assignment at `i` inside script text: the key, blanks,
/// a colon, blanks, and a quoted ten-character date. Yields the date text.
pub open spec fn script_date_at(s: Seq<char>, key: Seq<char>, i: int) -> Option<Seq<char>>
    recommends
        0 <= i <= s.len(),
{
    if text::matches_at(s, key, i) {
        let c = ws_run_end(s, i + key.len());
        if c < s.len() && s[c] == ':' {
            let q = ws_run_end(s, c + 1);
            if q < s.len() && s[q] == '"' && quoted_date_shape(s, q + 1) && q + 11 < s.len()
                && s[q + 11] == '"' {
                Some(s.subrange(q + 1, q + 11))
            } else {
                None
            }
        } else {
            None
        }
    } else {
        None
    }
}

/// The first `key : "date"` assignment in `s` at or after `i`.
pub open spec fn first_script_date(s: Seq<char>, key: Seq<char>, i: int) -> Option<Seq<char>>
    decreases s.len() - i when 0 <= i <= s.len()
{
    if i >= s.len() {
        None
    } else if script_date_at(s, key, i) is Some {
        script_date_at(s, key, i)
    } else {
        first_script_date(s, key, i + 1)
    }
}

fn script_date_at_exec(t: &Vec<char>, key: &Vec<char>, i: usize) -> (r: Option<Vec<char>>)
    requires
        i <= t@.len(),
    ensures
        match (r, script_date_at(t@, key@, i as int)) {
            (Some(h), Some(g)) => h@ == g,
            (None, None) => true,
            _ => false,
        },
{
    if key.len() > t.len() - i {
        return None;
    }
    if !text::matches_at_exec(t, key, i) {
        return None;
    }
    let c = ws_run_end_exec(t, i + key.len());
    if !(c < t.len() && t[c] == ':') {
        return None;
    }
    let q = ws_run_end_exec(t, c + 1);
    if !(q < t.len() && t[q] == '"') {
        return None;
    }
    if t.len() - q <= 11 {
        return None;
    }
    let shape_ok = date::is_digit_char(t[q + 1]) && date::is_digit_char(t[q + 2])
        && date::is_digit_char(t[q + 3]) && date::is_digit_char(t[q + 4]) && date::is_dsep_char(
        t[q + 5],
    ) && date::is_digit_char(t[q + 6]) && date::is_digit_char(t[q + 7]) && date::is_dsep_char(
        t[q + 8],
    ) && date::is_digit_char(t[q + 9]) && date::is_digit_char(t[q + 10]);
    if !(shape_ok && t[q + 11] == '"') {
        return None;
    }
    let cap = text::copy_range(t, q + 1, q + 11);
    Some(cap)
}

/// Finds the first `key : "date"` assignment in `t`; see
/// [`first_script_date`].
pub fn first_script_date_exec(t: &Vec<char>, key: &Vec<char>) -> (r: Option<Vec<char>>)
    ensures
        match (r, first_script_date(t@, key@, 0)) {
            (Some(h), Some(g)) => h@ == g,
            (None, None) => true,
            _ => false,
        },
{
    let mut i: usize = 0;
    while i < t.len()
        invariant
            i <= t@.len(),
            first_script_date(t@, key@, 0) == first_script_date(t@, key@, i as int),
        decreases t@.len() - i,
    {
        if let Some(h) = script_date_at_exec(t, key, i) {
            return Some(h);
        }
        i += 1;
    }
    None
}

/// The first `"` at or after `i`.
pub open spec fn close_quote_end(s: Seq<char>, i: int) -> Option<int>
    decreases s.len() - i when 0 <= i <= s.len()
{
    if i >= s.len() {
        None
    } else if s[i] == '"' {
        Some(i)
    } else {
        close_quote_end(s, i + 1)
    }
}

proof fn lemma_close_quote_bounds(s: Seq<char>, i: int)
    requires
        0 <= i <= s.len(),
        close_quote_end(s, i) is Some,
    ensures
        i <= close_quote_end(s, i)->0 < s.len(),
    decreases s.len() - i,
{
    if i < s.len() && s[i] != '"' {
        lemma_close_quote_bounds(s, i + 1);
    }
}

/// A numbered organizer assignment at `i` inside script text: `company`,
/// optional digits, blanks, a colon, blanks, and a non-empty quoted value.
/// Yields the value and the position after its closing quote.
pub open spec fn script_company_at(s: Seq<char>, i: int) -> Option<(Seq<char>, int)>
    recommends
        0 <= i <= s.len(),
{
    if text::matches_at(s, "company"@, i) && i + 7 <= s.len() {
        let dr = digit_run_end(s, i + 7);
        let c = ws_run_end(s, dr);
        if c < s.len() && s[c] == ':' {
            let q = ws_run_end(s, c + 1);
            if q < s.len() && s[q] == '"' {
                match close_quote_end(s, q + 1) {
                    Some(z) => if z > q + 1 {
                        Some((s.subrange(q + 1, z), z + 1))
                    } else {
                        None
                    },
                    None => None,
                }
            } else {
                None
            }
        } else {
            None
        }
    } else {
        None
    }
}

pub proof fn lemma_script_company_end(s: Seq<char>, i: int)
    requires
        0 <= i <= s.len(),
        script_company_at(s, i) is Some,
    ensures
        script_company_at(s, i) matches Some(h) ==> i < h.1 <= s.len(),
{
    lemma_digit_run_bounds(s, i + 7);
    let dr = digit_run_end(s, i + 7);
    lemma_ws_run_bounds(s, dr);
    let c = ws_run_end(s, dr);
    lemma_ws_run_bounds(s, c + 1);
    let q = ws_run_end(s, c + 1);
    lemma_close_quote_bounds(s, q + 1);
}

/// The trimmed non-empty organizer values of all numbered assignments in
/// `s` at or after `i`, in text order.
pub open spec fn companies_from(s: Seq<char>, i: int) -> Seq<Seq<char>>
    decreases s.len() - i when 0 <= i <= s.len()
{
    if i >= s.len() {
        Seq::empty()
    } else {
        match script_company_at(s, i) {
            Some((cap, e)) => {
                proof {
                    lemma_script_company_end(s, i);
                }
                let tv = text::trim_spec(cap);
                if tv.len() > 0 {
                    seq![tv] + companies_from(s, e)
                } else {
                    companies_from(s, e)
                }
            },
            None => companies_from(s, i + 1),
        }
    }
}

fn script_company_at_exec(t: &Vec<char>, i: usize) -> (r: Option<(Vec<char>, usize)>)
    requires
        i <= t@.len(),
    ensures
        match (r, script_company_at(t@, i as int)) {
            (Some(h), Some(g)) => h.0@ == g.0 && h.1 as int == g.1 && i < h.1 <= t@.len(),
            (None, None) => true,
            _ => false,
        },
{
    let pat = text::chars_of("company");
    proof {
        reveal_strlit("company");
    }
    if pat.len() > t.len() - i || i + 7 > t.len() {
        return None;
    }
    if !text::matches_at_exec(t, &pat, i) {
        return None;
    }
    let dr = date::digit_run_end_exec(t, i + 7);
    let c = ws_run_end_exec(t, dr);
    if !(c < t.len() && t[c] == ':') {
        return None;
    }
    let q = ws_run_end_exec(t, c + 1);
    if !(q < t.len() && t[q] == '"') {
        return None;
    }
    match close_quote_exec(t, q + 1) {
        Some(z) => {
            if z > q + 1 {
                let cap = text::copy_range(t, q + 1, z);
                Some((cap, z + 1))
            } else {
                None
            }
        },
        None => None,
    }
}

fn close_quote_exec(t: &Vec<char>, i: usize) -> (r: Option<usize>)
    requires
        i <= t@.len(),
    ensures
        match (r, close_quote_end(t@, i as int)) {
            (Some(h), Some(g)) => g == h as int && i <= h < t@.len(),
            (None, None) => true,
            _ => false,
        },
{
    let mut j = i;
    while j < t.len()
        invariant
            i <= j <= t@.len(),
            close_quote_end(t@, i as int) == close_quote_end(t@, j as int),
        decreases t@.len() - j,
    {
        if t[j] == '"' {
            return Some(j);
        }
        j += 1;
    }
    None
}

/// Collects the organizer values of all numbered script assignments; see
/// [`companies_from`].
pub fn companies_exec(t: &Vec<char>) -> (r: Vec<Vec<char>>)
    ensures
        r@.map_values(|w: Vec<char>| w@) == companies_from(t@, 0),
{
    let mut out: Vec<Vec<char>> = Vec::new();
    let mut i: usize = 0;
    while i < t.len()
        invariant
            i <= t@.len(),
            companies_from(t@, 0) == out@.map_values(|w: Vec<char>| w@) + companies_from(
                t@,
                i as int,
            ),
        decreases t@.len() - i,
    {
        match script_company_at_exec(t, i) {
            Some((cap, e)) => {
                let tv = text::trim_chars(&cap);
                if tv.len() > 0 {
                    let ghost prev = out@;
                    out.push(tv);
                    proof {
                        assert(out@.map_values(|w: Vec<char>| w@) =~= prev.map_values(
                            |w: Vec<char>| w@,
                        ) + seq![text::trim_spec(cap@)]);
                        assert(prev.map_values(|w: Vec<char>| w@) + (seq![text::trim_spec(cap@)]
                            + companies_from(t@, e as int)) =~= (prev.map_values(
                            |w: Vec<char>| w@,
                        ) + seq![text::trim_spec(cap@)]) + companies_from(t@, e as int));
                    }
                }
                i = e;
            },
            None => {
                i += 1;
            },
        }
    }
    proof {
        assert(out@.map_values(|w: Vec<char>| w@) + companies_from(t@, i as int)
            =~= out@.map_values(|w: Vec<char>| w@));
    }
    out
}

/// The first line break at or after `i`, or the end of the text.
pub open spec fn line_end(s: Seq<char>, i: int) -> int
    decreases s.len() - i when 0 <= i <= s.len()
{
    if i >= s.len() {
        i
    } else if s[i] == '\n' {
        i
    } else {
        line_end(s, i + 1)
    }
}

fn line_end_exec(t: &Vec<char>, i: usize) -> (j: usize)
    requires
        i <= t@.len(),
    ensures
        j as int == line_end(t@, i as int),
        i <= j <= t@.len(),
{
    let mut j = i;
    while j < t.len() && t[j] != '\n'
        invariant
            i <= j <= t@.len(),
            line_end(t@, i as int) == line_end(t@, j as int),
        decreases t@.len() - j,
    {
        j += 1;
    }
    j
}

/// An organizer label at `i`: the host or sponsor marker word.
pub open spec fn org_label_at(s: Seq<char>, i: int) -> bool {
    text::matches_at(s, "주최"@, i) || text::matches_at(s, "주관"@, i)
}

/// The organizer phrase anchored at `i`: a label, blanks, an optional
/// colon, blanks, then the non-empty remainder of the line.
pub open spec fn org_at(s: Seq<char>, i: int) -> Option<Seq<char>>
    recommends
        0 <= i <= s.len(),
{
    if org_label_at(s, i) {
        let w = ws_run_end(s, i + 2);
        let w2 = if w < s.len() && (s[w] == ':' || s[w] == '：') {
            ws_run_end(s, w + 1)
        } else {
            w
        };
        let nl = line_end(s, w2);
        if nl > w2 {
            Some(s.subrange(w2, nl))
        } else {
            None
        }
    } else {
        None
    }
}

/// The first organizer phrase in `s` at or after `i`.
pub open spec fn first_org(s: Seq<char>, i: int) -> Option<Seq<char>>
    decreases s.len() - i when 0 <= i <= s.len()
{
    if i >= s.len() {
        None
    } else if org_at(s, i) is Some {
        org_at(s, i)
    } else {
        first_org(s, i + 1)
    }
}

fn org_at_exec(t: &Vec<char>, i: usize) -> (r: Option<Vec<char>>)
    requires
        i <= t@.len(),
    ensures
        match (r, org_at(t@, i as int)) {
            (Some(h), Some(g)) => h@ == g,
            (None, None) => true,
            _ => false,
        },
{
    let host = text::chars_of("주최");
    let spon = text::chars_of("주관");
    proof {
        reveal_strlit("주최");
        reveal_strlit("주관");
    }
    if t.len() - i < 2 {
        return None;
    }
    if !(text::matches_at_exec(t, &host, i) || text::matches_at_exec(t, &spon, i)) {
        return None;
    }
    let w = ws_run_end_exec(t, i + 2);
    let w2 = if w < t.len() && (t[w] == ':' || t[w] == '：') {
        ws_run_end_exec(t, w + 1)
    } else {
        w
    };
    let nl = line_end_exec(t, w2);
    if nl > w2 {
        Some(text::copy_range(t, w2, nl))
    } else {
        None
    }
}

/// Finds the first organizer phrase in `t`; see [`first_org`].
pub fn first_org_exec(t: &Vec<char>) -> (r: Option<Vec<char>>)
    ensures
        match (r, first_org(t@, 0)) {
            (Some(h), Some(g)) => h@ == g,
            (None, None) => true,
            _ => false,
        },
{
    let mut i: usize = 0;
    while i < t.len()
        invariant
            i <= t@.len(),
            first_org(t@, 0) == first_org(t@, i as int),
        decreases t@.len() - i,
    {
        if let Some(h) = org_at_exec(t, i) {
            return Some(h);
        }
        i += 1;
    }
    None
}

/// A delimiter between the parts of an organizer phrase.
pub open spec fn is_org_delim(c: char) -> bool {
    c == '/' || c == '|' || c == '·' || c == ','
}

/// Executable mirror of [`is_org_delim`].
pub fn is_org_delim_char(c: char) -> (r: bool)
    ensures
        r == is_org_delim(c),
{
    c == '/' || c == '|' || c == '·' || c == ','
}

/// The leading run of non-delimiter characters.
pub open spec fn take_chunk(s: Seq<char>) -> Seq<char>
    decreases s.len(),
{
    if s.len() == 0 || is_org_delim(s[0]) {
        Seq::empty()
    } else {
        seq![s[0]] + take_chunk(s.drop_first())
    }
}

pub proof fn lemma_take_chunk_len(s: Seq<char>)
    ensures
        take_chunk(s).len() <= s.len(),
        s.len() > 0 && !is_org_delim(s[0]) ==> take_chunk(s).len() >= 1,
    decreases s.len(),
{
    if s.len() > 0 && !is_org_delim(s[0]) {
        lemma_take_chunk_len(s.drop_first());
    }
}

/// The delimiter-separated chunks of `s`, in order, without empties.
pub open spec fn chunks(s: Seq<char>) -> Seq<Seq<char>>
    decreases s.len(),
{
    if s.len() == 0 {
        Seq::empty()
    } else if is_org_delim(s[0]) {
        chunks(s.drop_first())
    } else {
        proof {
            lemma_take_chunk_len(s);
        }
        seq![take_chunk(s)] + chunks(s.skip(take_chunk(s).len() as int))
    }
}

/// The non-empty trimmed chunks, in order.
pub open spec fn trimmed_chunks(cs: Seq<Seq<char>>) -> Seq<Seq<char>>
    decreases cs.len(),
{
    if cs.len() == 0 {
        Seq::empty()
    } else {
        let rest = trimmed_chunks(cs.drop_first());
        if text::trim_spec(cs[0]).len() > 0 {
            seq![text::trim_spec(cs[0])] + rest
        } else {
            rest
        }
    }
}

/// The organizer parts of a phrase: the phrase split on `/`, `|`, `·` and
/// `,`, each part trimmed, empties dropped.
pub open spec fn org_parts(s: Seq<char>) -> Seq<Seq<char>> {
    trimmed_chunks(chunks(s))
}

proof fn lemma_chunk_range(s: Seq<char>, k: int)
    requires
        0 <= k <= s.len(),
        forall|m: int| 0 <= m < k ==> !is_org_delim(s[m]),
        k == s.len() || is_org_delim(s[k]),
    ensures
        take_chunk(s) == s.subrange(0, k),
    decreases k,
{
    if k == 0 {
        assert(s.subrange(0, 0) =~= Seq::<char>::empty());
    } else {
        assert(!is_org_delim(s[0]));
        let t = s.drop_first();
        assert(t =~= s.subrange(1, s.len() as int));
        lemma_chunk_range(t, k - 1);
        assert(seq![s[0]] + t.subrange(0, k - 1) =~= s.subrange(0, k));
    }
}

/// Splits `v` into its delimiter-separated chunks; see [`chunks`].
fn chunks_exec(v: &Vec<char>) -> (r: Vec<Vec<char>>)
    ensures
        r@.map_values(|w: Vec<char>| w@) == chunks(v@),
{
    let mut r: Vec<Vec<char>> = Vec::new();
    let mut i: usize = 0;
    proof {
        assert(v@.skip(0) =~= v@);
    }
    while i < v.len()
        invariant
            i <= v@.len(),
            chunks(v@) == r@.map_values(|w: Vec<char>| w@) + chunks(v@.skip(i as int)),
        decreases v@.len() - i,
    {
        if is_org_delim_char(v[i]) {
            proof {
                let t = v@.skip(i as int);
                assert(t.len() > 0 && is_org_delim(t[0]));
                assert(t.drop_first() =~= v@.skip(i as int + 1));
            }
            i += 1;
        } else {
            let start = i;
            let mut w: Vec<char> = Vec::new();
            while i < v.len() && !is_org_delim_char(v[i])
                invariant
                    start <= i <= v@.len(),
                    w@ == v@.subrange(start as int, i as int),
                    forall|m: int| start <= m < i ==> !is_org_delim(v@[m]),
                decreases v@.len() - i,
            {
                w.push(v[i]);
                i += 1;
                proof {
                    assert(w@ =~= v@.subrange(start as int, i as int));
                }
            }
            proof {
                let t = v@.skip(start as int);
                assert forall|m: int| 0 <= m < i - start implies !is_org_delim(t[m]) by {
                    assert(t[m] == v@[start + m]);
                }
                if i < v@.len() {
                    assert(is_org_delim(t[i - start]));
                }
                lemma_chunk_range(t, i - start);
                assert(t.subrange(0, i - start) =~= v@.subrange(start as int, i as int));
                assert(take_chunk(t) == w@);
                assert(t.len() > 0 && !is_org_delim(t[0]));
                assert(chunks(t) == seq![take_chunk(t)] + chunks(t.skip(take_chunk(t).len() as int)));
                assert(t.skip(i - start) =~= v@.skip(i as int));
                let prev = r@.map_values(|u: Vec<char>| u@);
                assert(chunks(v@) == prev + (seq![w@] + chunks(v@.skip(i as int))));
                assert(prev + (seq![w@] + chunks(v@.skip(i as int))) =~= (prev + seq![w@]) + chunks(
                    v@.skip(i as int),
                ));
            }
            let ghost prev_r = r@;
            r.push(w);
            proof {
                assert(r@.map_values(|u: Vec<char>| u@) =~= prev_r.map_values(|u: Vec<char>| u@)
                    + seq![w@]);
            }
        }
    }
    proof {
        assert(chunks(v@.skip(i as int)) =~= Seq::<Seq<char>>::empty());
        assert(r@.map_values(|w: Vec<char>| w@) + chunks(v@.skip(i as int)) =~= r@.map_values(
            |w: Vec<char>| w@,
        ));
    }
    r
}

/// The organizer parts of a phrase; see [`org_parts`].
pub fn org_parts_exec(v: &Vec<char>) -> (r: Vec<Vec<char>>)
    ensures
        r@.map_values(|w: Vec<char>| w@) == org_parts(v@),
{
    let cs = chunks_exec(v);
    let mut out: Vec<Vec<char>> = Vec::new();
    let mut i: usize = 0;
    proof {
        assert(cs@.skip(0) =~= cs@);
        assert(cs@.skip(0).map_values(|w: Vec<char>| w@) =~= chunks(v@));
    }
    while i < cs.len()
        invariant
            i <= cs@.len(),
            cs@.map_values(|w: Vec<char>| w@) == chunks(v@),
            trimmed_chunks(chunks(v@)) == out@.map_values(|w: Vec<char>| w@) + trimmed_chunks(
                cs@.skip(i as int).map_values(|w: Vec<char>| w@),
            ),
        decreases cs@.len() - i,
    {
        proof {
            let m = cs@.skip(i as int).map_values(|w: Vec<char>| w@);
            assert(m[0] == cs@[i as int]@);
            assert(m.drop_first() =~= cs@.skip(i as int + 1).map_values(|w: Vec<char>| w@));
        }
        let t = text::trim_chars(&cs[i]);
        if t.len() > 0 {
            let ghost prev = out@;
            out.push(t);
            proof {
                let m = cs@.skip(i as int).map_values(|w: Vec<char>| w@);
                assert(out@.map_values(|w: Vec<char>| w@) =~= prev.map_values(|w: Vec<char>| w@)
                    + seq![text::trim_spec(cs@[i as int]@)]);
                assert(prev.map_values(|w: Vec<char>| w@) + (seq![text::trim_spec(cs@[i as int]@)]
                    + trimmed_chunks(m.drop_first())) =~= (prev.map_values(|w: Vec<char>| w@)
                    + seq![text::trim_spec(cs@[i as int]@)]) + trimmed_chunks(m.drop_first()));
            }
        }
        i += 1;
    }
    proof {
        assert(cs@.skip(i as int).map_values(|w: Vec<char>| w@)
            =~= Seq::<Seq<char>>::empty());
        assert(out@.map_values(|w: Vec<char>| w@) + trimmed_chunks(
            cs@.skip(i as int).map_values(|w: Vec<char>| w@),
        ) =~= out@.map_values(|w: Vec<char>| w@));
    }
    out
}

} // verus!
