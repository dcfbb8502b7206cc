//! The reconciler: merges the notice collections of all sources into one
//! deduplicated, deterministically ordered sequence.

use vstd::prelude::*;
use crate::date;
use crate::notice::{Notice, kind_rank_spec};
use crate::text;

verus! {

/// The first position at or after `i` where `pat` occurs in `s`.
pub open spec fn first_match(s: Seq<char>, pat: Seq<char>, i: int) -> Option<int>
    decreases s.len() - i when 0 <= i <= s.len() && pat.len() > 0
{
    if i > s.len() - pat.len() {
        None
    } else if text::matches_at(s, pat, i) {
        Some(i)
    } else {
        first_match(s, pat, i + 1)
    }
}

proof fn lemma_first_match_some(s: Seq<char>, pat: Seq<char>, k: int, i: int)
    requires
        pat.len() > 0,
        0 <= k <= i,
        i + pat.len() <= s.len(),
        text::matches_at(s, pat, i),
        forall|m: int| 0 <= m < i ==> !text::matches_at(s, pat, m),
    ensures
        first_match(s, pat, k) == Some(i),
    decreases i - k,
{
    if k < i {
        lemma_first_match_some(s, pat, k + 1, i);
    }
}

proof fn lemma_first_match_none(s: Seq<char>, pat: Seq<char>, k: int)
    requires
        0 <= k <= s.len(),
        pat.len() > 0,
        !text::contains_seq(s, pat),
    ensures
        first_match(s, pat, k) is None,
    decreases s.len() - k,
{
    if k <= s.len() - pat.len() {
        lemma_first_match_none(s, pat, k + 1);
    }
}

/// `i` is where the first occurrence of `pat` starts.
pub proof fn lemma_first_match_found(s: Seq<char>, pat: Seq<char>, i: int)
    requires
        pat.len() > 0,
        0 <= i,
        i + pat.len() <= s.len(),
        text::matches_at(s, pat, i),
        forall|m: int| 0 <= m < i ==> !text::matches_at(s, pat, m),
    ensures
        first_match(s, pat, 0) == Some(i),
{
    lemma_first_match_some(s, pat, 0, i);
}

/// `pat` does not occur in `s` at all.
pub proof fn lemma_first_match_missing(s: Seq<char>, pat: Seq<char>)
    requires
        pat.len() > 0,
        !text::contains_seq(s, pat),
    ensures
        first_match(s, pat, 0) is None,
{
    lemma_first_match_none(s, pat, 0);
}

/// A URL with its pagination query stripped: everything from the first
/// `&gp=` is dropped, else everything from the first `?gp=`.
pub open spec fn norm_url(u: Seq<char>) -> Seq<char> {
    match first_match(u, "&gp="@, 0) {
        Some(i) => u.subrange(0, i),
        None => match first_match(u, "?gp="@, 0) {
            Some(i) => u.subrange(0, i),
            None => u,
        },
    }
}

fn strip_from(u: &Vec<char>, pat: &Vec<char>) -> (r: Option<Vec<char>>)
    requires
        pat@.len() > 0,
    ensures
        match (r, first_match(u@, pat@, 0)) {
            (Some(h), Some(i)) => h@ == u@.subrange(0, i),
            (None, None) => true,
            _ => false,
        },
{
    match text::index_of_sub(u, pat) {
        Some(i) => {
            proof {
                lemma_first_match_some(u@, pat@, 0, i as int);
            }
            Some(text::copy_range(u, 0, i))
        },
        None => {
            proof {
                lemma_first_match_none(u@, pat@, 0);
            }
            None
        },
    }
}

/// Strips the pagination query from a URL; see [`norm_url`].
pub fn norm_url_exec(u: &Vec<char>) -> (r: Vec<char>)
    ensures
        r@ == norm_url(u@),
{
    let amp = text::chars_of("&gp=");
    let qm = text::chars_of("?gp=");
    proof {
        reveal_strlit("&gp=");
        reveal_strlit("?gp=");
    }
    match strip_from(u, &amp) {
        Some(h) => h,
        None => match strip_from(u, &qm) {
            Some(h) => h,
            None => text::copy_range(u, 0, u.len()),
        },
    }
}

/// The first dedup key: the normalized URL.
pub open spec fn url_key(n: Notice) -> Seq<char> {
    norm_url(n.url@)
}

/// The second dedup key: the lowercased, whitespace-normalized title with
/// the date range, so that the comparison is case- and space-insensitive.
pub open spec fn cross_key(n: Notice) -> (Seq<char>, Option<Seq<char>>, Option<Seq<char>>) {
    (
        text::norm_ws(text::lower_of(n.title@)),
        crate::extract::opt_view(n.start),
        crate::extract::opt_view(n.end),
    )
}

/// The notices from `i` on whose URL key is not in `seen` and not repeated
/// earlier, first occurrence kept.
pub open spec fn dedup_url_from(l: Seq<Notice>, i: int, seen: Set<Seq<char>>) -> Seq<Notice>
    decreases l.len() - i when 0 <= i <= l.len()
{
    if i >= l.len() {
        Seq::empty()
    } else if seen.contains(url_key(l[i])) {
        dedup_url_from(l, i + 1, seen)
    } else {
        seq![l[i]] + dedup_url_from(l, i + 1, seen.insert(url_key(l[i])))
    }
}

/// `l` with URL-key repeats dropped, first occurrences kept.
pub open spec fn dedup_url(l: Seq<Notice>) -> Seq<Notice> {
    dedup_url_from(l, 0, Set::empty())
}

/// The notices from `i` on whose cross key is not in `seen` and not
/// repeated earlier, first occurrence kept.
pub open spec fn dedup_cross_from(
    l: Seq<Notice>,
    i: int,
    seen: Set<(Seq<char>, Option<Seq<char>>, Option<Seq<char>>)>,
) -> Seq<Notice>
    decreases l.len() - i when 0 <= i <= l.len()
{
    if i >= l.len() {
        Seq::empty()
    } else if seen.contains(cross_key(l[i])) {
        dedup_cross_from(l, i + 1, seen)
    } else {
        seq![l[i]] + dedup_cross_from(l, i + 1, seen.insert(cross_key(l[i])))
    }
}

/// `l` with cross-key repeats dropped, first occurrences kept.
pub open spec fn dedup_cross(l: Seq<Notice>) -> Seq<Notice> {
    dedup_cross_from(l, 0, Set::empty())
}

fn url_key_exec(n: &Notice) -> (r: Vec<char>)
    ensures
        r@ == url_key(*n),
{
    let u = text::chars_of(n.url.as_str());
    norm_url_exec(&u)
}

fn contains_chars(seen: &Vec<Vec<char>>, k: &Vec<char>) -> (r: bool)
    ensures
        r == exists|j: int| 0 <= j < seen@.len() && seen@[j]@ == k@,
{
    let mut i: usize = 0;
    while i < seen.len()
        invariant
            i <= seen@.len(),
            forall|j: int| 0 <= j < i ==> seen@[j]@ != k@,
        decreases seen@.len() - i,
    {
        if text::seq_eq(&seen[i], k) {
            return true;
        }
        i += 1;
    }
    false
}

/// Drops URL-key repeats, keeping first occurrences; see [`dedup_url`].
pub fn dedup_by_url(l: Vec<Notice>) -> (r: Vec<Notice>)
    ensures
        r@ == dedup_url(l@),
{
    let mut out: Vec<Notice> = Vec::new();
    let mut seen: Vec<Vec<char>> = Vec::new();
    let ghost gs: Set<Seq<char>> = Set::empty();
    let mut gsv = Ghost(gs);
    let mut i: usize = 0;
    while i < l.len()
        invariant
            i <= l@.len(),
            forall|x: Seq<char>|
                gsv@.contains(x) <==> exists|j: int| 0 <= j < seen@.len() && seen@[j]@ == x,
            dedup_url(l@) == out@ + dedup_url_from(l@, i as int, gsv@),
        decreases l@.len() - i,
    {
        let k = url_key_exec(&l[i]);
        if contains_chars(&seen, &k) {
            proof {
                assert(gsv@.contains(url_key(l@[i as int])));
            }
            i += 1;
        } else {
            proof {
                assert(!gsv@.contains(url_key(l@[i as int])));
            }
            let ghost prev_out = out@;
            let ghost prev_seen = seen@;
            out.push(l[i].duplicate());
            seen.push(k);
            proof {
                let ghost old_gs = gsv@;
                gsv@ = gsv@.insert(url_key(l@[i as int]));
                assert forall|x: Seq<char>|
                    gsv@.contains(x) <==> exists|j: int|
                        0 <= j < seen@.len() && seen@[j]@ == x by {
                    if gsv@.contains(x) {
                        if x == url_key(l@[i as int]) {
                            assert(seen@[seen@.len() - 1]@ == x);
                        } else {
                            assert(old_gs.contains(x));
                            let j = choose|j: int| 0 <= j < prev_seen.len() && prev_seen[j]@ == x;
                            assert(seen@[j]@ == x);
                        }
                    }
                    if exists|j: int| 0 <= j < seen@.len() && seen@[j]@ == x {
                        let j = choose|j: int| 0 <= j < seen@.len() && seen@[j]@ == x;
                        if j < prev_seen.len() {
                            assert(prev_seen[j]@ == x);
                            assert(old_gs.contains(x));
                        } else {
                            assert(x == k@);
                        }
                        assert(gsv@.contains(x));
                    }
                }
                assert(prev_out + (seq![l@[i as int]] + dedup_url_from(l@, i as int + 1, gsv@))
                    =~= (prev_out + seq![l@[i as int]]) + dedup_url_from(l@, i as int + 1, gsv@));
                assert(out@ =~= prev_out + seq![l@[i as int]]);
            }
            i += 1;
        }
    }
    proof {
        assert(out@ + dedup_url_from(l@, i as int, gsv@) =~= out@);
    }
    out
}

fn opt_string_eq(a: &Option<String>, b: &Option<String>) -> (r: bool)
    ensures
        r == (crate::extract::opt_view(*a) == crate::extract::opt_view(*b)),
{
    match (a, b) {
        (Some(x), Some(y)) => {
            let xc = text::chars_of(x.as_str());
            let yc = text::chars_of(y.as_str());
            text::seq_eq(&xc, &yc)
        },
        (None, None) => true,
        _ => false,
    }
}

fn cross_key_title(n: &Notice) -> (r: Vec<char>)
    ensures
        r@ == text::norm_ws(text::lower_of(n.title@)),
{
    let low = text::lowercase(n.title.as_str());
    text::collapse_ws(&text::chars_of(low.as_str()))
}

fn contains_cross(seen: &Vec<(Vec<char>, Option<String>, Option<String>)>, n: &Notice) -> (r:
    bool)
    ensures
        r == exists|j: int|
            0 <= j < seen@.len() && (seen@[j].0@, crate::extract::opt_view(seen@[j].1), crate::extract::opt_view(
                seen@[j].2,
            )) == cross_key(*n),
{
    let kt = cross_key_title(n);
    let mut i: usize = 0;
    while i < seen.len()
        invariant
            i <= seen@.len(),
            kt@ == text::norm_ws(text::lower_of(n.title@)),
            forall|j: int|
                0 <= j < i ==> (seen@[j].0@, crate::extract::opt_view(seen@[j].1), crate::extract::opt_view(
                    seen@[j].2,
                )) != cross_key(*n),
        decreases seen@.len() - i,
    {
        if text::seq_eq(&seen[i].0, &kt) && opt_string_eq(&seen[i].1, &n.start) && opt_string_eq(
            &seen[i].2,
            &n.end,
        ) {
            proof {
                assert((seen@[i as int].0@, crate::extract::opt_view(seen@[i as int].1), crate::extract::opt_view(
                    seen@[i as int].2,
                )) == cross_key(*n));
            }
            return true;
        }
        i += 1;
    }
    false
}

/// Drops cross-key repeats, keeping first occurrences; see [`dedup_cross`].
pub fn dedup_by_cross(l: Vec<Notice>) -> (r: Vec<Notice>)
    ensures
        r@ == dedup_cross(l@),
{
    let mut out: Vec<Notice> = Vec::new();
    let mut seen: Vec<(Vec<char>, Option<String>, Option<String>)> = Vec::new();
    let ghost gs: Set<(Seq<char>, Option<Seq<char>>, Option<Seq<char>>)> = Set::empty();
    let mut gsv = Ghost(gs);
    let mut i: usize = 0;
    while i < l.len()
        invariant
            i <= l@.len(),
            forall|x: (Seq<char>, Option<Seq<char>>, Option<Seq<char>>)|
                gsv@.contains(x) <==> exists|j: int|
                    0 <= j < seen@.len() && (seen@[j].0@, crate::extract::opt_view(seen@[j].1), crate::extract::opt_view(
                        seen@[j].2,
                    )) == x,
            dedup_cross(l@) == out@ + dedup_cross_from(l@, i as int, gsv@),
        decreases l@.len() - i,
    {
        if contains_cross(&seen, &l[i]) {
            proof {
                assert(gsv@.contains(cross_key(l@[i as int])));
            }
            i += 1;
        } else {
            proof {
                assert(!gsv@.contains(cross_key(l@[i as int])));
            }
            let ghost prev_out = out@;
            let ghost prev_seen = seen@;
            let kt = cross_key_title(&l[i]);
            out.push(l[i].duplicate());
            seen.push(
                (kt, crate::notice::clone_opt_string(&l[i].start), crate::notice::clone_opt_string(&l[i].end)),
            );
            proof {
                let ghost old_gs = gsv@;
                gsv@ = gsv@.insert(cross_key(l@[i as int]));
                assert forall|x: (Seq<char>, Option<Seq<char>>, Option<Seq<char>>)|
                    gsv@.contains(x) <==> exists|j: int|
                        0 <= j < seen@.len() && (seen@[j].0@, crate::extract::opt_view(
                            seen@[j].1,
                        ), crate::extract::opt_view(seen@[j].2)) == x by {
                    if gsv@.contains(x) {
                        if x == cross_key(l@[i as int]) {
                            assert((seen@[seen@.len() - 1].0@, crate::extract::opt_view(
                                seen@[seen@.len() - 1].1,
                            ), crate::extract::opt_view(seen@[seen@.len() - 1].2)) == x);
                        } else {
                            assert(old_gs.contains(x));
                            let j = choose|j: int|
                                0 <= j < prev_seen.len() && (prev_seen[j].0@, crate::extract::opt_view(
                                    prev_seen[j].1,
                                ), crate::extract::opt_view(prev_seen[j].2)) == x;
                            assert((seen@[j].0@, crate::extract::opt_view(seen@[j].1), crate::extract::opt_view(
                                seen@[j].2,
                            )) == x);
                        }
                    }
                    if exists|j: int|
                        0 <= j < seen@.len() && (seen@[j].0@, crate::extract::opt_view(
                            seen@[j].1,
                        ), crate::extract::opt_view(seen@[j].2)) == x {
                        let j = choose|j: int|
                            0 <= j < seen@.len() && (seen@[j].0@, crate::extract::opt_view(
                                seen@[j].1,
                            ), crate::extract::opt_view(seen@[j].2)) == x;
                        if j < prev_seen.len() {
                            assert((prev_seen[j].0@, crate::extract::opt_view(prev_seen[j].1), crate::extract::opt_view(
                                prev_seen[j].2,
                            )) == x);
                            assert(old_gs.contains(x));
                        } else {
                            assert(x == cross_key(l@[i as int]));
                        }
                        assert(gsv@.contains(x));
                    }
                }
                assert(prev_out + (seq![l@[i as int]] + dedup_cross_from(l@, i as int + 1, gsv@))
                    =~= (prev_out + seq![l@[i as int]]) + dedup_cross_from(
                    l@,
                    i as int + 1,
                    gsv@,
                ));
                assert(out@ =~= prev_out + seq![l@[i as int]]);
            }
            i += 1;
        }
    }
    proof {
        assert(out@ + dedup_cross_from(l@, i as int, gsv@) =~= out@);
    }
    out
}

/// The two orderings the reconciler supports.
#[derive(Clone, Copy, Debug, PartialEq, Eq, Structural)]
pub enum SortOrder {
    /// Ascending by start date, notices with a start date first, then by
    /// end date, then by title: the upcoming-deadlines view.
    Upcoming,
    /// Descending by start-or-end date, notices without a date last, with
    /// contests before activities on date ties, then by title: the
    /// most-recent-first feed.
    Recent,
}

/// The parsed date of an optional date field.
pub open spec fn parse_opt(o: Option<String>) -> Option<date::Date> {
    match o {
        Some(s) => date::parse_ymd_spec(s@),
        None => None,
    }
}

/// The ranking date of a notice: its parsed start date, else its parsed
/// end date.
pub open spec fn date_key(n: Notice) -> Option<date::Date> {
    if parse_opt(n.start) is Some {
        parse_opt(n.start)
    } else {
        parse_opt(n.end)
    }
}

/// The ranking date as a day number.
pub open spec fn date_key_num(n: Notice) -> Option<int> {
    match date_key(n) {
        Some(d) => Some(date::day_number(d.y as int, d.m as int, d.d as int)),
        None => None,
    }
}

/// Strict order on optional strings: absent before present, else
/// lexicographic.
pub open spec fn opt_str_lt(a: Option<Seq<char>>, b: Option<Seq<char>>) -> bool {
    match (a, b) {
        (Option::None, Option::Some(_)) => true,
        (Option::Some(x), Option::Some(y)) => text::lex_lt(x, y),
        _ => false,
    }
}

/// `a` is strictly more recent than `b`: a missing date is least.
pub open spec fn opt_recent_gt(a: Option<int>, b: Option<int>) -> bool {
    match (a, b) {
        (Option::Some(x), Option::Some(y)) => x > y,
        (Option::Some(_), Option::None) => true,
        _ => false,
    }
}

/// Strict order of the upcoming-deadlines view.
pub open spec fn up_lt(a: Notice, b: Notice) -> bool {
    let sa = crate::extract::opt_view(a.start);
    let sb = crate::extract::opt_view(b.start);
    if sa is Some && sb is None {
        true
    } else if sa is None && sb is Some {
        false
    } else if opt_str_lt(sa, sb) {
        true
    } else if opt_str_lt(sb, sa) {
        false
    } else if opt_str_lt(crate::extract::opt_view(a.end), crate::extract::opt_view(b.end)) {
        true
    } else if opt_str_lt(crate::extract::opt_view(b.end), crate::extract::opt_view(a.end)) {
        false
    } else {
        text::lex_lt(a.title@, b.title@)
    }
}

/// Strict order of the most-recent-first feed.
pub open spec fn rec_lt(a: Notice, b: Notice) -> bool {
    let ka = date_key_num(a);
    let kb = date_key_num(b);
    if opt_recent_gt(ka, kb) {
        true
    } else if opt_recent_gt(kb, ka) {
        false
    } else if kind_rank_spec(a.kind) < kind_rank_spec(b.kind) {
        true
    } else if kind_rank_spec(a.kind) > kind_rank_spec(b.kind) {
        false
    } else {
        text::lex_lt(a.title@, b.title@)
    }
}

/// The strict order of the chosen view.
pub open spec fn notice_lt(o: SortOrder, a: Notice, b: Notice) -> bool {
    match o {
        SortOrder::Upcoming => up_lt(a, b),
        SortOrder::Recent => rec_lt(a, b),
    }
}

/// No later element is strictly before an earlier one.
pub open spec fn sorted_by(o: SortOrder, l: Seq<Notice>) -> bool {
    forall|i: int, j: int| 0 <= i < j < l.len() ==> !notice_lt(o, l[j], l[i])
}

/// `x` inserted before the first element that is not strictly before it.
pub open spec fn insert_sorted(o: SortOrder, x: Notice, l: Seq<Notice>) -> Seq<Notice>
    decreases l.len(),
{
    if l.len() == 0 {
        seq![x]
    } else if notice_lt(o, l[0], x) {
        seq![l[0]] + insert_sorted(o, x, l.drop_first())
    } else {
        seq![x] + l
    }
}

/// `l` sorted by the chosen view, by stable insertion.
pub open spec fn sort_spec(o: SortOrder, l: Seq<Notice>) -> Seq<Notice>
    decreases l.len(),
{
    if l.len() == 0 {
        Seq::empty()
    } else {
        insert_sorted(o, l[0], sort_spec(o, l.drop_first()))
    }
}

fn parse_opt_exec(o: &Option<String>) -> (r: Option<date::Date>)
    ensures
        r == parse_opt(*o),
{
    match o {
        Some(s) => {
            let cs = text::chars_of(s.as_str());
            date::parse_ymd(&cs)
        },
        None => None,
    }
}

fn date_key_num_exec(n: &Notice) -> (r: Option<i64>)
    ensures
        match (r, date_key_num(*n)) {
            (Some(v), Some(g)) => v as int == g,
            (None, None) => true,
            _ => false,
        },
{
    let k = match parse_opt_exec(&n.start) {
        Some(d) => Some(d),
        None => parse_opt_exec(&n.end),
    };
    match k {
        Some(d) => Some(date::day_number_of(&d)),
        None => None,
    }
}

fn opt_chars_lt(a: &Option<String>, b: &Option<String>) -> (r: bool)
    ensures
        r == opt_str_lt(crate::extract::opt_view(*a), crate::extract::opt_view(*b)),
{
    match (a, b) {
        (Option::None, Option::Some(_)) => true,
        (Option::Some(x), Option::Some(y)) => {
            let xc = text::chars_of(x.as_str());
            let yc = text::chars_of(y.as_str());
            text::lex_lt_exec(&xc, &yc)
        },
        _ => false,
    }
}

/// Whether `a` sorts strictly before `b` in the chosen view.
pub fn notice_before(o: &SortOrder, a: &Notice, b: &Notice) -> (r: bool)
    ensures
        r == notice_lt(*o, *a, *b),
{
    match o {
        SortOrder::Upcoming => {
            if a.start.is_some() && b.start.is_none() {
                return true;
            }
            if a.start.is_none() && b.start.is_some() {
                return false;
            }
            if opt_chars_lt(&a.start, &b.start) {
                return true;
            }
            if opt_chars_lt(&b.start, &a.start) {
                return false;
            }
            if opt_chars_lt(&a.end, &b.end) {
                return true;
            }
            if opt_chars_lt(&b.end, &a.end) {
                return false;
            }
            let ta = text::chars_of(a.title.as_str());
            let tb = text::chars_of(b.title.as_str());
            text::lex_lt_exec(&ta, &tb)
        },
        SortOrder::Recent => {
            let ka = date_key_num_exec(a);
            let kb = date_key_num_exec(b);
            let a_gt = match (ka, kb) {
                (Option::Some(x), Option::Some(y)) => x > y,
                (Option::Some(_), Option::None) => true,
                _ => false,
            };
            if a_gt {
                return true;
            }
            let b_gt = match (kb, ka) {
                (Option::Some(x), Option::Some(y)) => x > y,
                (Option::Some(_), Option::None) => true,
                _ => false,
            };
            if b_gt {
                return false;
            }
            let ra = crate::notice::kind_rank(&a.kind);
            let rb = crate::notice::kind_rank(&b.kind);
            if ra < rb {
                return true;
            }
            if ra > rb {
                return false;
            }
            let ta = text::chars_of(a.title.as_str());
            let tb = text::chars_of(b.title.as_str());
            text::lex_lt_exec(&ta, &tb)
        },
    }
}

fn insert_sorted_exec(o: &SortOrder, x: Notice, l: Vec<Notice>) -> (r: Vec<Notice>)
    ensures
        r@ == insert_sorted(*o, x, l@),
    decreases l@.len(),
{
    if l.len() == 0 {
        let mut r: Vec<Notice> = Vec::new();
        r.push(x);
        proof {
            assert(r@ =~= seq![x]);
        }
        r
    } else if notice_before(o, &l[0], &x) {
        let ghost lv = l@;
        let mut l2 = l;
        let head = l2.remove(0);
        proof {
            assert(l2@ =~= lv.drop_first());
        }
        let rest = insert_sorted_exec(o, x, l2);
        let mut r = rest;
        r.insert(0, head);
        proof {
            assert(r@ =~= seq![lv[0]] + insert_sorted(*o, x, lv.drop_first()));
        }
        r
    } else {
        let ghost lv = l@;
        let mut r = l;
        r.insert(0, x);
        proof {
            assert(r@ =~= seq![x] + lv);
        }
        r
    }
}

/// Sorts notices by the chosen view; see [`sort_spec`].
pub fn sort_notices(l: Vec<Notice>, o: &SortOrder) -> (r: Vec<Notice>)
    ensures
        r@ == sort_spec(*o, l@),
    decreases l@.len(),
{
    if l.len() == 0 {
        let r: Vec<Notice> = Vec::new();
        proof {
            assert(sort_spec(*o, l@) == Seq::<Notice>::empty());
            assert(r@ =~= Seq::<Notice>::empty());
        }
        r
    } else {
        let ghost lv = l@;
        let mut l2 = l;
        let head = l2.remove(0);
        proof {
            assert(l2@ =~= lv.drop_first());
        }
        let sorted = sort_notices(l2, o);
        insert_sorted_exec(o, head, sorted)
    }
}

/// All input collections flattened in arrival order.
pub open spec fn flatten_sources(s: Seq<Vec<Notice>>) -> Seq<Notice>
    decreases s.len(),
{
    if s.len() == 0 {
        Seq::empty()
    } else {
        s[0]@ + flatten_sources(s.drop_first())
    }
}

/// The reconciler: the flattened collections, deduplicated by normalized
/// URL and then by cross-source key, sorted for the most-recent-first
/// feed.
pub open spec fn merge_spec(s: Seq<Vec<Notice>>) -> Seq<Notice> {
    sort_spec(SortOrder::Recent, dedup_cross(dedup_url(flatten_sources(s))))
}

/// Merges the notice collections of all sources; see [`merge_spec`].
pub fn merge_notices(sources: Vec<Vec<Notice>>) -> (r: Vec<Notice>)
    ensures
        r@ == merge_spec(sources@),
{
    let ghost sv = sources@;
    let mut src = sources;
    let mut all: Vec<Notice> = Vec::new();
    while src.len() > 0
        invariant
            flatten_sources(sv) == all@ + flatten_sources(src@),
        decreases src@.len(),
    {
        let ghost srcv = src@;
        let mut head = src.remove(0);
        proof {
            assert(src@ =~= srcv.drop_first());
        }
        all.append(&mut head);
    }
    proof {
        assert(all@ + flatten_sources(src@) =~= all@);
    }
    let du = dedup_by_url(all);
    let dc = dedup_by_cross(du);
    sort_notices(dc, &SortOrder::Recent)
}

proof fn lemma_lex_pair(x: Seq<char>, y: Seq<char>)
    ensures
        text::lex_lt(x, y) ==> !text::lex_lt(y, x),
        (!text::lex_lt(x, y) && !text::lex_lt(y, x)) ==> x == y,
{
    text::lemma_lex_total(x, y);
}

proof fn lemma_lex_trans_impl(x: Seq<char>, y: Seq<char>, z: Seq<char>)
    ensures
        (text::lex_lt(x, y) && text::lex_lt(y, z)) ==> text::lex_lt(x, z),
{
    if text::lex_lt(x, y) && text::lex_lt(y, z) {
        text::lemma_lex_trans(x, y, z);
    }
}

proof fn lemma_opt_pair(a: Option<Seq<char>>, b: Option<Seq<char>>)
    ensures
        opt_str_lt(a, b) ==> !opt_str_lt(b, a),
        (!opt_str_lt(a, b) && !opt_str_lt(b, a)) ==> a == b,
{
    match (a, b) {
        (Option::Some(x), Option::Some(y)) => {
            lemma_lex_pair(x, y);
        },
        _ => {},
    }
}

proof fn lemma_opt_trans_impl(a: Option<Seq<char>>, b: Option<Seq<char>>, c: Option<Seq<char>>)
    ensures
        (opt_str_lt(a, b) && opt_str_lt(b, c)) ==> opt_str_lt(a, c),
{
    match (a, b, c) {
        (Option::Some(x), Option::Some(y), Option::Some(z)) => {
            lemma_lex_trans_impl(x, y, z);
        },
        _ => {},
    }
}

/// `notice_lt` is asymmetric.
proof fn lemma_lt_asym(o: SortOrder, a: Notice, b: Notice)
    ensures
        notice_lt(o, a, b) ==> !notice_lt(o, b, a),
{
    lemma_opt_pair(crate::extract::opt_view(a.start), crate::extract::opt_view(b.start));
    lemma_opt_pair(crate::extract::opt_view(b.start), crate::extract::opt_view(a.start));
    lemma_opt_pair(crate::extract::opt_view(a.end), crate::extract::opt_view(b.end));
    lemma_opt_pair(crate::extract::opt_view(b.end), crate::extract::opt_view(a.end));
    lemma_lex_pair(a.title@, b.title@);
    lemma_lex_pair(b.title@, a.title@);
}

/// `!notice_lt` is transitive.
proof fn lemma_nlt_trans(o: SortOrder, a: Notice, b: Notice, c: Notice)
    requires
        !notice_lt(o, a, b),
        !notice_lt(o, b, c),
    ensures
        !notice_lt(o, a, c),
{
    let sa = crate::extract::opt_view(a.start);
    let sb = crate::extract::opt_view(b.start);
    let sc = crate::extract::opt_view(c.start);
    let ea = crate::extract::opt_view(a.end);
    let eb = crate::extract::opt_view(b.end);
    let ec = crate::extract::opt_view(c.end);
    lemma_opt_pair(sa, sb);
    lemma_opt_pair(sb, sc);
    lemma_opt_pair(sa, sc);
    lemma_opt_pair(ea, eb);
    lemma_opt_pair(eb, ec);
    lemma_opt_pair(ea, ec);
    lemma_opt_trans_impl(sa, sb, sc);
    lemma_opt_trans_impl(sc, sb, sa);
    lemma_opt_trans_impl(sb, sa, sc);
    lemma_opt_trans_impl(sc, sa, sb);
    lemma_opt_trans_impl(sa, sc, sb);
    lemma_opt_trans_impl(sb, sc, sa);
    lemma_opt_trans_impl(ea, eb, ec);
    lemma_opt_trans_impl(ec, eb, ea);
    lemma_opt_trans_impl(eb, ea, ec);
    lemma_opt_trans_impl(ec, ea, eb);
    lemma_opt_trans_impl(ea, ec, eb);
    lemma_opt_trans_impl(eb, ec, ea);
    lemma_lex_pair(a.title@, b.title@);
    lemma_lex_pair(b.title@, c.title@);
    lemma_lex_pair(a.title@, c.title@);
    lemma_lex_trans_impl(a.title@, b.title@, c.title@);
    lemma_lex_trans_impl(c.title@, b.title@, a.title@);
    lemma_lex_trans_impl(b.title@, a.title@, c.title@);
    lemma_lex_trans_impl(c.title@, a.title@, b.title@);
    lemma_lex_trans_impl(a.title@, c.title@, b.title@);
    lemma_lex_trans_impl(b.title@, c.title@, a.title@);
}

proof fn lemma_cons_contains(a: Notice, s: Seq<Notice>, y: Notice)
    ensures
        (seq![a] + s).contains(y) <==> (y == a || s.contains(y)),
{
    if (seq![a] + s).contains(y) {
        let i = choose|i: int| 0 <= i < (seq![a] + s).len() && (seq![a] + s)[i] == y;
        if i == 0 {
            assert(y == a);
        } else {
            assert(s[i - 1] == y);
        }
    }
    if y == a {
        assert((seq![a] + s)[0] == y);
    }
    if s.contains(y) {
        let i = choose|i: int| 0 <= i < s.len() && s[i] == y;
        assert((seq![a] + s)[i + 1] == y);
    }
}

proof fn lemma_insert_contains(o: SortOrder, x: Notice, l: Seq<Notice>)
    ensures
        insert_sorted(o, x, l).len() == l.len() + 1,
        forall|y: Notice|
            #[trigger] insert_sorted(o, x, l).contains(y) <==> (l.contains(y) || y == x),
    decreases l.len(),
{
    if l.len() == 0 {
        assert forall|y: Notice|
            #[trigger] insert_sorted(o, x, l).contains(y) <==> (l.contains(y) || y == x) by {
            lemma_cons_contains(x, Seq::empty(), y);
            assert(seq![x] + Seq::<Notice>::empty() =~= seq![x]);
            assert(insert_sorted(o, x, l) =~= seq![x] + Seq::<Notice>::empty());
        }
    } else if notice_lt(o, l[0], x) {
        lemma_insert_contains(o, x, l.drop_first());
        assert forall|y: Notice|
            #[trigger] insert_sorted(o, x, l).contains(y) <==> (l.contains(y) || y == x) by {
            lemma_cons_contains(l[0], insert_sorted(o, x, l.drop_first()), y);
            lemma_cons_contains(l[0], l.drop_first(), y);
            assert(seq![l[0]] + l.drop_first() =~= l);
        }
    } else {
        assert forall|y: Notice|
            #[trigger] insert_sorted(o, x, l).contains(y) <==> (l.contains(y) || y == x) by {
            lemma_cons_contains(x, l, y);
        }
    }
}

proof fn lemma_insert_keeps_sorted(o: SortOrder, x: Notice, l: Seq<Notice>)
    requires
        sorted_by(o, l),
    ensures
        sorted_by(o, insert_sorted(o, x, l)),
    decreases l.len(),
{
    if l.len() == 0 {
    } else if notice_lt(o, l[0], x) {
        let tail = l.drop_first();
        assert(sorted_by(o, tail)) by {
            assert forall|i: int, j: int| 0 <= i < j < tail.len() implies !notice_lt(
                o,
                tail[j],
                tail[i],
            ) by {
                assert(tail[j] == l[j + 1] && tail[i] == l[i + 1]);
            }
        }
        lemma_insert_keeps_sorted(o, x, tail);
        lemma_insert_contains(o, x, tail);
        let ins = insert_sorted(o, x, tail);
        let r = seq![l[0]] + ins;
        assert forall|i: int, j: int| 0 <= i < j < r.len() implies !notice_lt(o, r[j], r[i]) by {
            if i == 0 {
                assert(ins.contains(r[j])) by {
                    assert(ins[j - 1] == r[j]);
                }
                if r[j] == x {
                    lemma_lt_asym(o, l[0], x);
                } else {
                    assert(tail.contains(r[j]));
                    let k = choose|k: int| 0 <= k < tail.len() && tail[k] == r[j];
                    assert(l[k + 1] == r[j]);
                    assert(!notice_lt(o, l[k + 1], l[0]));
                }
            } else {
                assert(r[j] == ins[j - 1] && r[i] == ins[i - 1]);
            }
        }
    } else {
        let r = seq![x] + l;
        assert forall|i: int, j: int| 0 <= i < j < r.len() implies !notice_lt(o, r[j], r[i]) by {
            if i == 0 {
                assert(r[j] == l[j - 1]);
                if j == 1 {
                    assert(!notice_lt(o, l[0], x));
                } else {
                    assert(!notice_lt(o, l[j - 1], l[0]));
                    lemma_nlt_trans(o, l[j - 1], l[0], x);
                }
            } else {
                assert(r[j] == l[j - 1] && r[i] == l[i - 1]);
            }
        }
    }
}

proof fn lemma_sort_tail_sorted(o: SortOrder, l: Seq<Notice>)
    requires
        sorted_by(o, l),
        l.len() > 0,
    ensures
        sorted_by(o, l.drop_first()),
{
    let tail = l.drop_first();
    assert forall|i: int, j: int| 0 <= i < j < tail.len() implies !notice_lt(o, tail[j], tail[i]) by {
        assert(tail[j] == l[j + 1] && tail[i] == l[i + 1]);
    }
}

/// The sort yields a sorted sequence.
pub proof fn lemma_sort_sorted(o: SortOrder, l: Seq<Notice>)
    ensures
        sorted_by(o, sort_spec(o, l)),
    decreases l.len(),
{
    if l.len() > 0 {
        lemma_sort_sorted(o, l.drop_first());
        lemma_insert_keeps_sorted(o, l[0], sort_spec(o, l.drop_first()));
    }
}

/// The sort keeps exactly the input elements.
pub proof fn lemma_sort_contains(o: SortOrder, l: Seq<Notice>)
    ensures
        sort_spec(o, l).len() == l.len(),
        forall|y: Notice| #[trigger] sort_spec(o, l).contains(y) <==> l.contains(y),
    decreases l.len(),
{
    if l.len() == 0 {
        assert forall|y: Notice| #[trigger] sort_spec(o, l).contains(y) <==> l.contains(y) by {
        }
    } else {
        lemma_sort_contains(o, l.drop_first());
        lemma_insert_contains(o, l[0], sort_spec(o, l.drop_first()));
        assert forall|y: Notice| #[trigger] sort_spec(o, l).contains(y) <==> l.contains(y) by {
            lemma_cons_contains(l[0], l.drop_first(), y);
            assert(seq![l[0]] + l.drop_first() =~= l);
        }
    }
}

/// Sorting an already sorted sequence returns it unchanged.
pub proof fn lemma_sort_id(o: SortOrder, l: Seq<Notice>)
    requires
        sorted_by(o, l),
    ensures
        sort_spec(o, l) == l,
    decreases l.len(),
{
    if l.len() > 0 {
        let tail = l.drop_first();
        lemma_sort_tail_sorted(o, l);
        lemma_sort_id(o, tail);
        if tail.len() == 0 {
            assert(sort_spec(o, l) =~= l);
        } else {
            assert(!notice_lt(o, tail[0], l[0])) by {
                assert(tail[0] == l[1]);
            }
            assert(insert_sorted(o, l[0], tail) == seq![l[0]] + tail);
            assert(seq![l[0]] + tail =~= l);
        }
    }
}

/// The elements of `l` have pairwise distinct images under `f`.
pub open spec fn keys_distinct<K>(l: Seq<Notice>, f: spec_fn(Notice) -> K) -> bool {
    forall|i: int, j: int| 0 <= i < j < l.len() ==> f(l[i]) != f(l[j])
}

proof fn lemma_insert_nodup<K>(o: SortOrder, x: Notice, l: Seq<Notice>, f: spec_fn(Notice) -> K)
    requires
        keys_distinct(l, f),
        forall|j: int| 0 <= j < l.len() ==> f(l[j]) != f(x),
    ensures
        keys_distinct(insert_sorted(o, x, l), f),
    decreases l.len(),
{
    if l.len() == 0 {
    } else if notice_lt(o, l[0], x) {
        let tail = l.drop_first();
        assert(keys_distinct(tail, f)) by {
            assert forall|i: int, j: int| 0 <= i < j < tail.len() implies f(tail[i]) != f(
                tail[j],
            ) by {
                assert(tail[i] == l[i + 1] && tail[j] == l[j + 1]);
            }
        }
        assert(forall|j: int| 0 <= j < tail.len() ==> f(#[trigger] tail[j]) != f(x)) by {
            assert(forall|j: int| 0 <= j < tail.len() ==> #[trigger] tail[j] == l[j + 1]);
        }
        lemma_insert_nodup(o, x, tail, f);
        lemma_insert_contains(o, x, tail);
        let ins = insert_sorted(o, x, tail);
        let r = seq![l[0]] + ins;
        assert forall|i: int, j: int| 0 <= i < j < r.len() implies f(r[i]) != f(r[j]) by {
            if i == 0 {
                assert(ins.contains(r[j])) by {
                    assert(ins[j - 1] == r[j]);
                }
                if r[j] == x {
                } else {
                    assert(tail.contains(r[j]));
                    let k = choose|k: int| 0 <= k < tail.len() && tail[k] == r[j];
                    assert(l[k + 1] == r[j]);
                }
            } else {
                assert(r[j] == ins[j - 1] && r[i] == ins[i - 1]);
            }
        }
    } else {
        let r = seq![x] + l;
        assert forall|i: int, j: int| 0 <= i < j < r.len() implies f(r[i]) != f(r[j]) by {
            if i == 0 {
                assert(r[j] == l[j - 1]);
            } else {
                assert(r[j] == l[j - 1] && r[i] == l[i - 1]);
            }
        }
    }
}

proof fn lemma_sort_nodup<K>(o: SortOrder, l: Seq<Notice>, f: spec_fn(Notice) -> K)
    requires
        keys_distinct(l, f),
    ensures
        keys_distinct(sort_spec(o, l), f),
    decreases l.len(),
{
    if l.len() > 0 {
        let tail = l.drop_first();
        assert(keys_distinct(tail, f)) by {
            assert forall|i: int, j: int| 0 <= i < j < tail.len() implies f(tail[i]) != f(
                tail[j],
            ) by {
                assert(tail[i] == l[i + 1] && tail[j] == l[j + 1]);
            }
        }
        lemma_sort_nodup(o, tail, f);
        lemma_sort_contains(o, tail);
        assert(forall|j: int|
            0 <= j < sort_spec(o, tail).len() ==> f(#[trigger] sort_spec(o, tail)[j]) != f(
                l[0],
            )) by {
            assert forall|j: int| 0 <= j < sort_spec(o, tail).len() implies f(
                #[trigger] sort_spec(o, tail)[j],
            ) != f(l[0]) by {
                let y = sort_spec(o, tail)[j];
                assert(sort_spec(o, tail).contains(y));
                assert(tail.contains(y));
                let k = choose|k: int| 0 <= k < tail.len() && tail[k] == y;
                assert(l[k + 1] == y);
            }
        }
        lemma_insert_nodup(o, l[0], sort_spec(o, tail), f);
    }
}

/// The URL key of a notice, as a key function.
pub open spec fn url_key_fn() -> spec_fn(Notice) -> Seq<char> {
    |n: Notice| url_key(n)
}

/// The cross key of a notice, as a key function.
pub open spec fn cross_key_fn() -> spec_fn(Notice) -> (Seq<char>, Option<Seq<char>>, Option<
    Seq<char>,
>) {
    |n: Notice| cross_key(n)
}

proof fn lemma_dedup_url_props(l: Seq<Notice>, i: int, seen: Set<Seq<char>>)
    requires
        0 <= i <= l.len(),
    ensures
        forall|y: Notice|
            #[trigger] dedup_url_from(l, i, seen).contains(y) ==> exists|k: int|
                i <= k < l.len() && l[k] == y,
        forall|y: Notice|
            #[trigger] dedup_url_from(l, i, seen).contains(y) ==> !seen.contains(url_key(y)),
        keys_distinct(dedup_url_from(l, i, seen), url_key_fn()),
        forall|k: int|
            i <= k < l.len() && !seen.contains(url_key(#[trigger] l[k])) ==> exists|y: Notice|
                dedup_url_from(l, i, seen).contains(y) && url_key(y) == url_key(l[k]),
    decreases l.len() - i,
{
    if i < l.len() {
        let out = dedup_url_from(l, i, seen);
        if seen.contains(url_key(l[i])) {
            lemma_dedup_url_props(l, i + 1, seen);
        } else {
            let seen2 = seen.insert(url_key(l[i]));
            lemma_dedup_url_props(l, i + 1, seen2);
            let rest = dedup_url_from(l, i + 1, seen2);
            assert(out == seq![l[i]] + rest);
            assert forall|y: Notice| #[trigger] out.contains(y) implies (exists|k: int|
                i <= k < l.len() && l[k] == y) && !seen.contains(url_key(y)) by {
                lemma_cons_contains(l[i], rest, y);
                if y == l[i] {
                    assert(l[i] == y);
                } else {
                    assert(rest.contains(y));
                }
            }
            assert(keys_distinct(out, url_key_fn())) by {
                assert forall|p: int, q: int| 0 <= p < q < out.len() implies url_key_fn()(
                    out[p],
                ) != url_key_fn()(out[q]) by {
                    if p == 0 {
                        assert(out[q] == rest[q - 1]);
                        assert(rest.contains(rest[q - 1]));
                        assert(!seen2.contains(url_key(rest[q - 1])));
                    } else {
                        assert(out[p] == rest[p - 1] && out[q] == rest[q - 1]);
                    }
                }
            }
            assert forall|k: int|
                i <= k < l.len() && !seen.contains(url_key(#[trigger] l[k])) implies exists|
                y: Notice,
            | out.contains(y) && url_key(y) == url_key(l[k]) by {
                if url_key(l[k]) == url_key(l[i]) {
                    assert(out[0] == l[i]);
                    assert(out.contains(l[i]));
                } else {
                    assert(!seen2.contains(url_key(l[k])));
                    assert(k > i);
                    let y = choose|y: Notice| rest.contains(y) && url_key(y) == url_key(l[k]);
                    lemma_cons_contains(l[i], rest, y);
                }
            }
        }
    }
}

proof fn lemma_dedup_cross_props(
    l: Seq<Notice>,
    i: int,
    seen: Set<(Seq<char>, Option<Seq<char>>, Option<Seq<char>>)>,
)
    requires
        0 <= i <= l.len(),
    ensures
        forall|y: Notice|
            #[trigger] dedup_cross_from(l, i, seen).contains(y) ==> exists|k: int|
                i <= k < l.len() && l[k] == y,
        forall|y: Notice|
            #[trigger] dedup_cross_from(l, i, seen).contains(y) ==> !seen.contains(cross_key(y)),
        keys_distinct(dedup_cross_from(l, i, seen), cross_key_fn()),
        forall|k: int|
            i <= k < l.len() && !seen.contains(cross_key(#[trigger] l[k])) ==> exists|y: Notice|
                dedup_cross_from(l, i, seen).contains(y) && cross_key(y) == cross_key(l[k]),
    decreases l.len() - i,
{
    if i < l.len() {
        let out = dedup_cross_from(l, i, seen);
        if seen.contains(cross_key(l[i])) {
            lemma_dedup_cross_props(l, i + 1, seen);
        } else {
            let seen2 = seen.insert(cross_key(l[i]));
            lemma_dedup_cross_props(l, i + 1, seen2);
            let rest = dedup_cross_from(l, i + 1, seen2);
            assert(out == seq![l[i]] + rest);
            assert forall|y: Notice| #[trigger] out.contains(y) implies (exists|k: int|
                i <= k < l.len() && l[k] == y) && !seen.contains(cross_key(y)) by {
                lemma_cons_contains(l[i], rest, y);
                if y == l[i] {
                    assert(l[i] == y);
                } else {
                    assert(rest.contains(y));
                }
            }
            assert(keys_distinct(out, cross_key_fn())) by {
                assert forall|p: int, q: int| 0 <= p < q < out.len() implies cross_key_fn()(
                    out[p],
                ) != cross_key_fn()(out[q]) by {
                    if p == 0 {
                        assert(out[q] == rest[q - 1]);
                        assert(rest.contains(rest[q - 1]));
                        assert(!seen2.contains(cross_key(rest[q - 1])));
                    } else {
                        assert(out[p] == rest[p - 1] && out[q] == rest[q - 1]);
                    }
                }
            }
            assert forall|k: int|
                i <= k < l.len() && !seen.contains(cross_key(#[trigger] l[k])) implies exists|
                y: Notice,
            | out.contains(y) && cross_key(y) == cross_key(l[k]) by {
                if cross_key(l[k]) == cross_key(l[i]) {
                    assert(out[0] == l[i]);
                    assert(out.contains(l[i]));
                } else {
                    assert(!seen2.contains(cross_key(l[k])));
                    assert(k > i);
                    let y = choose|y: Notice| rest.contains(y) && cross_key(y) == cross_key(l[k]);
                    lemma_cons_contains(l[i], rest, y);
                }
            }
        }
    }
}

proof fn lemma_dedup_url_id(l: Seq<Notice>, i: int, seen: Set<Seq<char>>)
    requires
        0 <= i <= l.len(),
        keys_distinct(l, url_key_fn()),
        forall|k: int| i <= k < l.len() ==> !seen.contains(url_key(#[trigger] l[k])),
    ensures
        dedup_url_from(l, i, seen) == l.subrange(i, l.len() as int),
    decreases l.len() - i,
{
    if i >= l.len() {
        assert(l.subrange(i, l.len() as int) =~= Seq::<Notice>::empty());
    } else {
        let seen2 = seen.insert(url_key(l[i]));
        assert forall|k: int| i + 1 <= k < l.len() implies !seen2.contains(
            url_key(#[trigger] l[k]),
        ) by {
            assert(url_key_fn()(l[i]) != url_key_fn()(l[k]));
        }
        lemma_dedup_url_id(l, i + 1, seen2);
        assert(seq![l[i]] + l.subrange(i + 1, l.len() as int) =~= l.subrange(i, l.len() as int));
    }
}

proof fn lemma_dedup_cross_id(
    l: Seq<Notice>,
    i: int,
    seen: Set<(Seq<char>, Option<Seq<char>>, Option<Seq<char>>)>,
)
    requires
        0 <= i <= l.len(),
        keys_distinct(l, cross_key_fn()),
        forall|k: int| i <= k < l.len() ==> !seen.contains(cross_key(#[trigger] l[k])),
    ensures
        dedup_cross_from(l, i, seen) == l.subrange(i, l.len() as int),
    decreases l.len() - i,
{
    if i >= l.len() {
        assert(l.subrange(i, l.len() as int) =~= Seq::<Notice>::empty());
    } else {
        let seen2 = seen.insert(cross_key(l[i]));
        assert forall|k: int| i + 1 <= k < l.len() implies !seen2.contains(
            cross_key(#[trigger] l[k]),
        ) by {
            assert(cross_key_fn()(l[i]) != cross_key_fn()(l[k]));
        }
        lemma_dedup_cross_id(l, i + 1, seen2);
        assert(seq![l[i]] + l.subrange(i + 1, l.len() as int) =~= l.subrange(i, l.len() as int));
    }
}

proof fn lemma_dc_keeps_nodup_url(l: Seq<Notice>)
    requires
        keys_distinct(l, url_key_fn()),
    ensures
        keys_distinct(dedup_cross(l), url_key_fn()),
{
    lemma_dedup_cross_props(l, 0, Set::empty());
    let out = dedup_cross(l);
    assert forall|p: int, q: int| 0 <= p < q < out.len() implies url_key_fn()(out[p])
        != url_key_fn()(out[q]) by {
        assert(cross_key_fn()(out[p]) != cross_key_fn()(out[q]));
        assert(out[p] != out[q]);
        assert(out.contains(out[p]));
        assert(out.contains(out[q]));
        let kp = choose|k: int| 0 <= k < l.len() && l[k] == out[p];
        let kq = choose|k: int| 0 <= k < l.len() && l[k] == out[q];
        assert(kp != kq);
        if kp < kq {
            assert(url_key_fn()(l[kp]) != url_key_fn()(l[kq]));
        } else {
            assert(url_key_fn()(l[kq]) != url_key_fn()(l[kp]));
        }
    }
}

/// Re-running the reconciler on its own output changes nothing: the merged
/// sequence is a fixed point of `merge_spec`.
#[verifier::rlimit(60)]
pub proof fn lemma_merge_idempotent(s: Seq<Vec<Notice>>, m: Vec<Notice>)
    requires
        m@ == merge_spec(s),
    ensures
        merge_spec(seq![m]) == m@,
{
    let flat = flatten_sources(s);
    let du = dedup_url(flat);
    let dc = dedup_cross(du);
    lemma_dedup_url_props(flat, 0, Set::empty());
    lemma_dedup_cross_props(du, 0, Set::empty());
    lemma_dc_keeps_nodup_url(du);
    lemma_sort_nodup(SortOrder::Recent, dc, url_key_fn());
    lemma_sort_nodup(SortOrder::Recent, dc, cross_key_fn());
    lemma_sort_sorted(SortOrder::Recent, dc);
    assert(seq![m].drop_first() =~= Seq::<Vec<Notice>>::empty());
    assert(seq![m][0] == m);
    assert(flatten_sources(seq![m]) == m@ + flatten_sources(Seq::<Vec<Notice>>::empty()));
    assert(flatten_sources(Seq::<Vec<Notice>>::empty()) =~= Seq::<Notice>::empty());
    assert(flatten_sources(seq![m]) =~= m@);
    lemma_dedup_url_id(m@, 0, Set::empty());
    assert(dedup_url(m@) == m@.subrange(0, m@.len() as int));
    assert(m@.subrange(0, m@.len() as int) =~= m@);
    lemma_dedup_cross_id(m@, 0, Set::empty());
    lemma_sort_id(SortOrder::Recent, m@);
}

/// After the merge, no two notices share a normalized URL, and no two
/// share a cross-source key.
pub proof fn lemma_merge_unique_keys(s: Seq<Vec<Notice>>, m: Vec<Notice>)
    requires
        m@ == merge_spec(s),
    ensures
        forall|i: int, j: int| 0 <= i < j < m@.len() ==> url_key(m@[i]) != url_key(m@[j]),
        forall|i: int, j: int| 0 <= i < j < m@.len() ==> cross_key(m@[i]) != cross_key(m@[j]),
{
    let flat = flatten_sources(s);
    let du = dedup_url(flat);
    let dc = dedup_cross(du);
    lemma_dedup_url_props(flat, 0, Set::empty());
    lemma_dedup_cross_props(du, 0, Set::empty());
    lemma_dc_keeps_nodup_url(du);
    lemma_sort_nodup(SortOrder::Recent, dc, url_key_fn());
    lemma_sort_nodup(SortOrder::Recent, dc, cross_key_fn());
    assert forall|i: int, j: int| 0 <= i < j < m@.len() implies url_key(m@[i]) != url_key(
        m@[j],
    ) by {
        assert(url_key_fn()(m@[i]) != url_key_fn()(m@[j]));
    }
    assert forall|i: int, j: int| 0 <= i < j < m@.len() implies cross_key(m@[i]) != cross_key(
        m@[j],
    ) by {
        assert(cross_key_fn()(m@[i]) != cross_key_fn()(m@[j]));
    }
}

proof fn lemma_du_complete(flat: Seq<Notice>, n: Notice)
    requires
        flat.contains(n),
    ensures
        exists|y: Notice|
            #[trigger] dedup_url(flat).contains(y) && url_key(y) == url_key(n),
{
    lemma_dedup_url_props(flat, 0, Set::empty());
    let k = choose|k: int| 0 <= k < flat.len() && flat[k] == n;
    assert(flat[k] == n);
    let y = choose|y: Notice|
        dedup_url_from(flat, 0, Set::empty()).contains(y) && url_key(y) == url_key(flat[k]);
    assert(dedup_url(flat).contains(y) && url_key(y) == url_key(n));
}

proof fn lemma_dc_complete(du: Seq<Notice>, y1: Notice)
    requires
        du.contains(y1),
    ensures
        exists|y: Notice|
            #[trigger] dedup_cross(du).contains(y) && cross_key(y) == cross_key(y1),
{
    lemma_dedup_cross_props(du, 0, Set::empty());
    let k = choose|k: int| 0 <= k < du.len() && du[k] == y1;
    assert(du[k] == y1);
    let y = choose|y: Notice|
        dedup_cross_from(du, 0, Set::empty()).contains(y) && cross_key(y) == cross_key(du[k]);
    assert(dedup_cross(du).contains(y) && cross_key(y) == cross_key(y1));
}

proof fn lemma_du_subset(flat: Seq<Notice>)
    ensures
        forall|y: Notice| #[trigger] dedup_url(flat).contains(y) ==> flat.contains(y),
{
    lemma_dedup_url_props(flat, 0, Set::empty());
    assert forall|y: Notice| #[trigger] dedup_url(flat).contains(y) implies flat.contains(y) by {
        let k = choose|k: int| 0 <= k < flat.len() && flat[k] == y;
        assert(flat[k] == y);
    }
}

proof fn lemma_dc_subset(du: Seq<Notice>)
    ensures
        forall|y: Notice| #[trigger] dedup_cross(du).contains(y) ==> du.contains(y),
{
    lemma_dedup_cross_props(du, 0, Set::empty());
    assert forall|y: Notice| #[trigger] dedup_cross(du).contains(y) implies du.contains(y) by {
        let k = choose|k: int| 0 <= k < du.len() && du[k] == y;
        assert(du[k] == y);
    }
}

/// URL dedup correctness. When no two notices of the input carry the same
/// cross key under different normalized URLs, an input that holds a notice
/// with normalized URL `U` merges to an output with exactly one notice
/// whose normalized URL is `U`. (Without that side condition the sole
/// URL-representative can itself be removed by the cross-source pass.)
#[verifier::rlimit(100)]
pub proof fn lemma_merge_dedup_url(s: Seq<Vec<Notice>>, m: Vec<Notice>, n: Notice)
    requires
        m@ == merge_spec(s),
        flatten_sources(s).contains(n),
        forall|x: Notice, y: Notice|
            #![trigger flatten_sources(s).contains(x), flatten_sources(s).contains(y)]
            flatten_sources(s).contains(x) && flatten_sources(s).contains(y) && cross_key(x)
                == cross_key(y) ==> url_key(x) == url_key(y),
    ensures
        exists|i: int| 0 <= i < m@.len() && url_key(#[trigger] m@[i]) == url_key(n),
        forall|i: int, j: int| 0 <= i < j < m@.len() ==> url_key(m@[i]) != url_key(m@[j]),
{
    lemma_merge_unique_keys(s, m);
    let flat = flatten_sources(s);
    let du = dedup_url(flat);
    let dc = dedup_cross(du);
    lemma_du_complete(flat, n);
    let y1 = choose|y: Notice| #[trigger] du.contains(y) && url_key(y) == url_key(n);
    lemma_dc_complete(du, y1);
    let y2 = choose|y: Notice| #[trigger] dc.contains(y) && cross_key(y) == cross_key(y1);
    lemma_du_subset(flat);
    lemma_dc_subset(du);
    assert(flat.contains(y1));
    assert(flat.contains(y2));
    assert(url_key(y2) == url_key(y1));
    lemma_sort_contains(SortOrder::Recent, dc);
    assert(m@.contains(y2));
    let i = choose|i: int| 0 <= i < m@.len() && m@[i] == y2;
    assert(url_key(m@[i]) == url_key(n));
}

/// Cross-source dedup correctness. When notices sharing a normalized URL
/// always share a cross key, an input that holds a notice with cross key
/// `K` merges to an output with exactly one notice whose cross key is `K`.
/// (Without that side condition the URL pass can drop every carrier of `K`
/// in favour of a same-URL notice with another title.)
#[verifier::rlimit(100)]
pub proof fn lemma_merge_dedup_cross(s: Seq<Vec<Notice>>, m: Vec<Notice>, n: Notice)
    requires
        m@ == merge_spec(s),
        flatten_sources(s).contains(n),
        forall|x: Notice, y: Notice|
            #![trigger flatten_sources(s).contains(x), flatten_sources(s).contains(y)]
            flatten_sources(s).contains(x) && flatten_sources(s).contains(y) && url_key(x)
                == url_key(y) ==> cross_key(x) == cross_key(y),
    ensures
        exists|i: int| 0 <= i < m@.len() && cross_key(#[trigger] m@[i]) == cross_key(n),
        forall|i: int, j: int| 0 <= i < j < m@.len() ==> cross_key(m@[i]) != cross_key(m@[j]),
{
    lemma_merge_unique_keys(s, m);
    let flat = flatten_sources(s);
    let du = dedup_url(flat);
    let dc = dedup_cross(du);
    lemma_du_complete(flat, n);
    let y1 = choose|y: Notice| #[trigger] du.contains(y) && url_key(y) == url_key(n);
    lemma_du_subset(flat);
    assert(flat.contains(y1));
    assert(cross_key(y1) == cross_key(n));
    lemma_dc_complete(du, y1);
    let y2 = choose|y: Notice| #[trigger] dc.contains(y) && cross_key(y) == cross_key(y1);
    assert(cross_key(y2) == cross_key(n));
    lemma_sort_contains(SortOrder::Recent, dc);
    assert(m@.contains(y2));
    let i = choose|i: int| 0 <= i < m@.len() && m@[i] == y2;
    assert(cross_key(m@[i]) == cross_key(n));
}

/// Tie order of the upcoming view: among notices with the same start and
/// end fields, titles appear in ascending lexicographic order.
pub proof fn lemma_upcoming_tie(l: Seq<Notice>, i: int, j: int)
    requires
        0 <= i < j < sort_spec(SortOrder::Upcoming, l).len(),
        crate::extract::opt_view(sort_spec(SortOrder::Upcoming, l)[i].start) == crate::extract::opt_view(
            sort_spec(SortOrder::Upcoming, l)[j].start,
        ),
        crate::extract::opt_view(sort_spec(SortOrder::Upcoming, l)[i].end) == crate::extract::opt_view(
            sort_spec(SortOrder::Upcoming, l)[j].end,
        ),
    ensures
        !text::lex_lt(
            sort_spec(SortOrder::Upcoming, l)[j].title@,
            sort_spec(SortOrder::Upcoming, l)[i].title@,
        ),
{
    lemma_sort_sorted(SortOrder::Upcoming, l);
    let out = sort_spec(SortOrder::Upcoming, l);
    let a = out[i];
    let b = out[j];
    assert(!notice_lt(SortOrder::Upcoming, b, a));
    lemma_opt_pair(
        crate::extract::opt_view(a.start),
        crate::extract::opt_view(b.start),
    );
    lemma_opt_pair(crate::extract::opt_view(a.end), crate::extract::opt_view(b.end));
}

/// Tie order of the most-recent-first feed: among notices with the same
/// ranking date, contests come before activities.
pub proof fn lemma_recent_tie(l: Seq<Notice>, i: int, j: int)
    requires
        0 <= i < j < sort_spec(SortOrder::Recent, l).len(),
        date_key_num(sort_spec(SortOrder::Recent, l)[i]) == date_key_num(
            sort_spec(SortOrder::Recent, l)[j],
        ),
    ensures
        kind_rank_spec(sort_spec(SortOrder::Recent, l)[i].kind) <= kind_rank_spec(
            sort_spec(SortOrder::Recent, l)[j].kind,
        ),
{
    lemma_sort_sorted(SortOrder::Recent, l);
    let out = sort_spec(SortOrder::Recent, l);
    assert(!notice_lt(SortOrder::Recent, out[j], out[i]));
}

} // verus!
