//! The wevity source adapter: listing-entry screening, detail parsing and
//! normalization into the shared schema.

use vstd::prelude::*;
use crate::crawl::CrawlSession;
use crate::date;
use crate::merge::first_match;
use crate::notice::{Notice, Source, Kind};
use crate::text;

verus! {

/// One crawled wevity record before normalization.
#[derive(Clone, Debug)]
pub struct Contest {
    pub title: String,
    pub organizer: String,
    pub url: String,
    pub start: Option<String>,
    pub end: Option<String>,
    pub category: String,
    pub field: Option<String>,
}

/// Normalizes free text: every blank character collapses to single spaces
/// and the ends are trimmed.
pub fn norm_text(s: &str) -> (r: String)
    ensures
        r@ == text::norm_ws(s@),
{
    let cs = text::chars_of(s);
    text::string_of(&text::collapse_ws(&cs))
}

/// The digits and dashes of `s`, in order.
pub open spec fn keep_date_chars(s: Seq<char>) -> Seq<char>
    decreases s.len(),
{
    if s.len() == 0 {
        Seq::empty()
    } else {
        (if date::is_digit(s[0]) || s[0] == '-' {
            seq![s[0]]
        } else {
            Seq::<char>::empty()
        }) + keep_date_chars(s.drop_first())
    }
}

/// The date written somewhere in `s`: its digits and dashes must begin
/// with a valid `YYYY-MM-DD`, which is returned literally.
pub open spec fn parse_ymd_str_spec(s: Seq<char>) -> Option<Seq<char>> {
    let k = keep_date_chars(s);
    if k.len() >= 10 && date::parse_ymd_spec(k.subrange(0, 10)) is Some {
        Some(k.subrange(0, 10))
    } else {
        None
    }
}

fn keep_date_chars_exec(v: &Vec<char>) -> (r: Vec<char>)
    ensures
        r@ == keep_date_chars(v@),
{
    let mut r: Vec<char> = Vec::new();
    let mut i: usize = 0;
    proof {
        assert(v@.skip(0) =~= v@);
    }
    while i < v.len()
        invariant
            i <= v@.len(),
            keep_date_chars(v@) == r@ + keep_date_chars(v@.skip(i as int)),
        decreases v@.len() - i,
    {
        proof {
            assert(v@.skip(i as int)[0] == v@[i as int]);
            assert(v@.skip(i as int).drop_first() =~= v@.skip(i as int + 1));
        }
        let c = v[i];
        if date::is_digit_char(c) || c == '-' {
            let ghost prev = r@;
            r.push(c);
            proof {
                assert(prev + (seq![v@[i as int]] + keep_date_chars(v@.skip(i as int + 1))) =~= (
                prev + seq![v@[i as int]]) + keep_date_chars(v@.skip(i as int + 1)));
            }
        }
        i += 1;
    }
    proof {
        assert(r@ + keep_date_chars(v@.skip(i as int)) =~= r@);
    }
    r
}

/// Extracts the date written in a period fragment; see
/// [`parse_ymd_str_spec`].
pub fn parse_ymd_str(v: &Vec<char>) -> (r: Option<Vec<char>>)
    ensures
        match (r, parse_ymd_str_spec(v@)) {
            (Some(h), Some(g)) => h@ == g,
            (None, None) => true,
            _ => false,
        },
{
    let k = keep_date_chars_exec(v);
    if k.len() < 10 {
        return None;
    }
    let ymd = text::copy_range(&k, 0, 10);
    match date::parse_ymd(&ymd) {
        Some(_) => Some(ymd),
        None => None,
    }
}

/// The application period named by the `during` form value: the dates of
/// the fragments on either side of the first `~`.
pub open spec fn parse_period_spec(s: Seq<char>) -> (Option<Seq<char>>, Option<Seq<char>>) {
    match first_match(s, "~"@, 0) {
        Some(i) => {
            let right = match first_match(s, "~"@, i + 1) {
                Some(j) => s.subrange(i + 1, j),
                None => s.subrange(i + 1, s.len() as int),
            };
            (parse_ymd_str_spec(s.subrange(0, i)), parse_ymd_str_spec(right))
        },
        None => (parse_ymd_str_spec(s), None),
    }
}

fn find_tilde(v: &Vec<char>, from: usize) -> (r: Option<usize>)
    requires
        from <= v@.len(),
    ensures
        match (r, first_match(v@, "~"@, from as int)) {
            (Some(h), Some(g)) => h as int == g && from <= h < v@.len(),
            (None, None) => true,
            _ => false,
        },
{
    proof {
        reveal_strlit("~");
    }
    let mut i = from;
    while i < v.len()
        invariant
            from <= i <= v@.len(),
            "~"@.len() == 1,
            first_match(v@, "~"@, from as int) == first_match(v@, "~"@, i as int),
        decreases v@.len() - i,
    {
        proof {
            reveal_strlit("~");
        }
        if v[i] == '~' {
            proof {
                assert(v@.subrange(i as int, i as int + 1) =~= "~"@);
                assert(text::matches_at(v@, "~"@, i as int));
            }
            return Some(i);
        }
        proof {
            if text::matches_at(v@, "~"@, i as int) {
                assert(v@.subrange(i as int, i as int + 1)[0] == v@[i as int]);
            }
        }
        i += 1;
    }
    None
}

/// Parses the period form value; see [`parse_period_spec`].
pub fn parse_period_value(s: &str) -> (r: (Option<String>, Option<String>))
    ensures
        ({
            let (gs, ge) = parse_period_spec(s@);
            &&& crate::extract::opt_view(r.0) == gs
            &&& crate::extract::opt_view(r.1) == ge
        }),
{
    let v = text::chars_of(s);
    let n = v.len();
    match find_tilde(&v, 0) {
        Some(i) => {
            let left = text::copy_range(&v, 0, i);
            let right = match find_tilde(&v, i + 1) {
                Some(j) => text::copy_range(&v, i + 1, j),
                None => text::copy_range(&v, i + 1, v.len()),
            };
            let start = match parse_ymd_str(&left) {
                Some(d) => Some(text::string_of(&d)),
                None => None,
            };
            let end = match parse_ymd_str(&right) {
                Some(d) => Some(text::string_of(&d)),
                None => None,
            };
            (start, end)
        },
        None => {
            let start = match parse_ymd_str(&v) {
                Some(d) => Some(text::string_of(&d)),
                None => None,
            };
            (start, None)
        },
    }
}

/// The lowercased activity-title keywords.
pub open spec fn activity_keywords() -> Seq<Seq<char>> {
    seq![
        "it"@,
        "sw"@,
        "코딩"@,
        "소프트웨어"@,
        "컴퓨터"@,
        "보안"@,
        "정보보호"@,
        "kisia"@,
        "개인정보"@,
        "개발자"@,
        "ai"@,
        "엔지니어"@,
        "부트캠프"@,
    ]
}

/// The lowercased title names one of the activity keywords.
pub open spec fn activity_kw_hit(low: Seq<char>) -> bool {
    exists|k: int|
        0 <= k < activity_keywords().len() && text::contains_seq(low, activity_keywords()[k])
}

fn activity_keyword(i: usize) -> (k: &'static str)
    requires
        i < 13,
    ensures
        k@ == activity_keywords()[i as int],
{
    match i {
        0 => "it",
        1 => "sw",
        2 => "코딩",
        3 => "소프트웨어",
        4 => "컴퓨터",
        5 => "보안",
        6 => "정보보호",
        7 => "kisia",
        8 => "개인정보",
        9 => "개발자",
        10 => "ai",
        11 => "엔지니어",
        12 => "부트캠프",
        _ => "",
    }
}

/// Whether a title names one of the activity keywords, case-insensitively.
pub fn matches_activity_keywords(title: &str) -> (r: bool)
    ensures
        r == activity_kw_hit(text::lower_of(title@)),
{
    let lows = text::lowercase(title);
    let low = text::chars_of(lows.as_str());
    let mut k: usize = 0;
    while k < 13
        invariant
            low@ == text::lower_of(title@),
            k <= 13,
            forall|m: int| 0 <= m < k ==> !text::contains_seq(low@, activity_keywords()[m]),
        decreases 13 - k,
    {
        let kw = text::chars_of(activity_keyword(k));
        if text::contains_sub(&low, &kw) {
            return true;
        }
        k += 1;
    }
    false
}

/// A name for what `url::Url::parse` and `Url::join` yield on a base and a
/// relative reference: the absolute URL text depends on the two texts
/// alone; `None` when either step fails.
pub uninterp spec fn joined_url(base: Seq<char>, href: Seq<char>) -> Option<Seq<char>>;

/// Relies on `url::Url::parse` and `Url::join`, which resolve a relative
/// reference against a base URL.
#[verifier::external_body]
pub fn join_url(base: &str, href: &str) -> (r: Option<String>)
    ensures
        crate::extract::opt_view(r) == joined_url(base@, href@),
{
    match url::Url::parse(base) {
        Ok(u) => match u.join(href) {
            Ok(j) => Some(j.to_string()),
            Err(_) => None,
        },
        Err(_) => None,
    }
}

/// A screened listing entry: its normalized title, absolute URL and
/// optional field text.
pub struct ListingEntry {
    pub title: String,
    pub url: String,
    pub field: Option<String>,
}

/// Screens one listing candidate: the title is normalized and must be
/// non-empty, the reference must be non-empty and resolve against the
/// site base, and the absolute URL must be new to this session, which then
/// records it. An entry is turned away only for one of exactly those
/// reasons: a blank title, an empty reference, a reference that does not
/// resolve, or an absolute URL already seen.
pub fn screen_listing_entry(
    session: &mut CrawlSession,
    title_raw: &str,
    href: &str,
    field_raw: &Option<String>,
) -> (r: Option<ListingEntry>)
    ensures
        match r {
            Some(e) => {
                &&& e.title@ == text::norm_ws(title_raw@)
                &&& e.title@.len() > 0
                &&& href@.len() > 0
                &&& joined_url("https://www.wevity.com"@, href@) == Some(e.url@)
                &&& !old(session).seen_keys().contains(e.url@)
                &&& final(session).seen_keys() == old(session).seen_keys().push(e.url@)
                &&& (match (e.field, *field_raw) {
                    (Some(f), Some(raw)) => f@ == text::norm_ws(raw@),
                    (None, None) => true,
                    _ => false,
                })
            },
            None => {
                &&& final(session).seen_keys() == old(session).seen_keys()
                &&& (text::norm_ws(title_raw@).len() == 0 || href@.len() == 0 || match joined_url(
                    "https://www.wevity.com"@,
                    href@,
                ) {
                    Some(u) => old(session).seen_keys().contains(u),
                    None => true,
                })
            },
        },
        final(session).budget == old(session).budget,
        final(session).next_page == old(session).next_page,
{
    let title = norm_text(title_raw);
    if title.as_str().is_empty() || href.is_empty() {
        return None;
    }
    match join_url("https://www.wevity.com", href) {
        Some(abs) => {
            if session.accept_entry(&abs) {
                let field = match field_raw {
                    Some(raw) => Some(norm_text(raw.as_str())),
                    None => None,
                };
                Some(ListingEntry { title, url: abs, field })
            } else {
                None
            }
        },
        None => None,
    }
}

/// A name for the value of the `during` form input that `scraper` finds in
/// a detail document: it depends on the document text alone.
pub uninterp spec fn during_in_html(s: Seq<char>) -> Option<Seq<char>>;

/// Relies on `scraper::Html::parse_document` and `Selector`: the `value`
/// attribute of the first `input[name="during"]` element.
#[verifier::external_body]
pub fn during_value_of(html: &str) -> (r: Option<String>)
    ensures
        crate::extract::opt_view(r) == during_in_html(html@),
{
    let doc = scraper::Html::parse_document(html);
    let sel = scraper::Selector::parse(r#"input[name="during"]"#).unwrap();
    doc.select(&sel).next().and_then(|n| n.value().attr("value")).map(|v| v.to_string())
}

/// A name for the info rows that `scraper` finds in a detail document: for
/// every `ul.cd-info-list > li`, the text of its first `span.tit` label and
/// the text of the whole item.
pub uninterp spec fn info_rows_in_html(s: Seq<char>) -> Seq<(Seq<char>, Seq<char>)>;

/// Relies on `scraper::Html::parse_document` and `Selector`: the label and
/// full text of every `ul.cd-info-list > li` element.
#[verifier::external_body]
pub fn info_rows_of(html: &str) -> (r: Vec<(String, String)>)
    ensures
        r@.map_values(|p: (String, String)| (p.0@, p.1@)) == info_rows_in_html(html@),
{
    let doc = scraper::Html::parse_document(html);
    let li_sel = scraper::Selector::parse("ul.cd-info-list > li").unwrap();
    let tit_sel = scraper::Selector::parse("span.tit").unwrap();
    let mut out = Vec::new();
    for li in doc.select(&li_sel) {
        let label: String = li.select(&tit_sel).next().map(
            |n| n.text().collect(),
        ).unwrap_or_default();
        let full: String = li.text().collect();
        out.push((label, full));
    }
    out
}

/// `h` with the first occurrence of `sub` removed.
pub open spec fn remove_first(h: Seq<char>, sub: Seq<char>) -> Seq<char> {
    if sub.len() == 0 {
        h
    } else {
        match first_match(h, sub, 0) {
            Some(i) => h.subrange(0, i) + h.subrange(i + sub.len(), h.len() as int),
            None => h,
        }
    }
}

fn remove_first_exec(h: &Vec<char>, sub: &Vec<char>) -> (r: Vec<char>)
    ensures
        r@ == remove_first(h@, sub@),
{
    if sub.len() == 0 {
        return text::copy_range(h, 0, h.len());
    }
    let n = h.len();
    match text::index_of_sub(h, sub) {
        Some(i) => {
            proof {
                crate::merge::lemma_first_match_found(h@, sub@, i as int);
            }
            let mut r = text::copy_range(h, 0, i);
            let tail = text::copy_range(h, i + sub.len(), h.len());
            text::push_all(&mut r, &tail);
            r
        },
        None => {
            proof {
                crate::merge::lemma_first_match_missing(h@, sub@);
            }
            text::copy_range(h, 0, h.len())
        },
    }
}

/// The label of a row marks the organizer: it names the host or sponsor.
pub open spec fn org_label(norm_label: Seq<char>) -> bool {
    text::contains_seq(norm_label, "주최"@) || text::contains_seq(norm_label, "주관"@)
}

/// The organizer read from one row: the normalized full text with its
/// first occurrence of the normalized label removed and the rest trimmed
/// on the left, normalized again.
pub open spec fn row_organizer(label_raw: Seq<char>, full_raw: Seq<char>) -> Seq<char> {
    text::norm_ws(
        text::trim_left_spec(
            remove_first(text::norm_ws(full_raw), text::norm_ws(label_raw)),
        ),
    )
}

/// The organizer of the first row whose normalized label marks it, from
/// row `i` on; empty when no row does.
pub open spec fn organizer_from_rows(rows: Seq<(Seq<char>, Seq<char>)>, i: int) -> Seq<char>
    decreases rows.len() - i when 0 <= i <= rows.len()
{
    if i >= rows.len() {
        Seq::empty()
    } else if org_label(text::norm_ws(rows[i].0)) {
        row_organizer(rows[i].0, rows[i].1)
    } else {
        organizer_from_rows(rows, i + 1)
    }
}

fn org_label_exec(norm_label: &Vec<char>) -> (r: bool)
    ensures
        r == org_label(norm_label@),
{
    text::contains_sub(norm_label, &text::chars_of("주최")) || text::contains_sub(
        norm_label,
        &text::chars_of("주관"),
    )
}

/// Builds a crawled record from a detail document's extracted parts.
pub fn contest_from_detail(
    title: String,
    url_abs: String,
    category_label: &str,
    field_text: Option<String>,
    during_raw: &Option<String>,
    info_rows: &Vec<(String, String)>,
) -> (r: Contest)
    ensures
        r.title == title,
        r.url == url_abs,
        r.category@ == category_label@,
        r.field == field_text,
        ({
            let (gs, ge) = parse_period_spec(
                match *during_raw {
                    Some(d) => d@,
                    None => Seq::empty(),
                },
            );
            crate::extract::opt_view(r.start) == gs && crate::extract::opt_view(r.end) == ge
        }),
        r.organizer@ == organizer_from_rows(
            info_rows@.map_values(|p: (String, String)| (p.0@, p.1@)),
            0,
        ),
{
    let (start, end) = match during_raw {
        Some(d) => parse_period_value(d.as_str()),
        None => parse_period_value(""),
    };
    proof {
        reveal_strlit("");
        assert(""@ =~= Seq::<char>::empty());
    }
    let ghost rows = info_rows@.map_values(|p: (String, String)| (p.0@, p.1@));
    let mut organizer: String = String::new();
    let mut i: usize = 0;
    let mut found = false;
    while i < info_rows.len() && !found
        invariant
            i <= info_rows@.len(),
            rows == info_rows@.map_values(|p: (String, String)| (p.0@, p.1@)),
            !found ==> organizer_from_rows(rows, 0) == organizer_from_rows(rows, i as int),
            found ==> organizer@ == organizer_from_rows(rows, 0),
            !found ==> organizer@ == Seq::<char>::empty(),
        decreases info_rows@.len() - i,
    {
        let norm_label = text::collapse_ws(&text::chars_of(info_rows[i].0.as_str()));
        if org_label_exec(&norm_label) {
            let norm_full = text::collapse_ws(&text::chars_of(info_rows[i].1.as_str()));
            let removed = remove_first_exec(&norm_full, &norm_label);
            let value = {
                let trimmed_left = drop_leading_blanks(&removed);
                text::collapse_ws(&trimmed_left)
            };
            organizer = text::string_of(&value);
            found = true;
            proof {
                assert(rows[i as int].0 == info_rows@[i as int].0@);
                assert(organizer@ == row_organizer(rows[i as int].0, rows[i as int].1));
            }
            i += 1;
        } else {
            i += 1;
        }
    }
    proof {
        if !found {
            assert(organizer_from_rows(rows, i as int) =~= Seq::<char>::empty());
        }
    }
    Contest { title, organizer, url: url_abs, start, end, category: category_label.to_owned(), field: field_text }
}

fn drop_leading_blanks(v: &Vec<char>) -> (r: Vec<char>)
    ensures
        r@ == text::trim_left_spec(v@),
{
    let mut lo: usize = 0;
    while lo < v.len() && text::is_space_char(v[lo])
        invariant
            lo <= v@.len(),
            forall|k: int| 0 <= k < lo ==> text::is_space(v@[k]),
        decreases v@.len() - lo,
    {
        lo += 1;
    }
    proof {
        text::lemma_trim_left_at(v@, lo as int);
    }
    text::copy_range(v, lo, v.len())
}

/// The normalized record of a crawled wevity entry: activities are the
/// `대외활동` category, everything else is a contest; a blank organizer
/// becomes an absent one, and only valid literal dates are kept.
pub open spec fn wevity_notice_spec(c: Contest) -> Notice {
    Notice {
        source: Source::Wevity,
        kind: if c.category@ == "대외활동"@ {
            Kind::Activity
        } else {
            Kind::Contest
        },
        title: c.title,
        url: c.url,
        start: if crate::notice::date_field_wf(c.start) {
            c.start
        } else {
            None
        },
        end: if crate::notice::date_field_wf(c.end) {
            c.end
        } else {
            None
        },
        organizer: if text::trim_spec(c.organizer@).len() == 0 {
            None
        } else {
            Some(c.organizer)
        },
        field: c.field,
    }
}

/// Normalizes a crawled wevity record; see [`wevity_notice_spec`].
pub fn to_notice_from_wevity(c: &Contest) -> (r: Notice)
    requires
        c.title@.len() > 0,
        c.url@.len() > 0,
    ensures
        r == wevity_notice_spec(*c),
        r.wf(),
{
    let cat = text::chars_of(c.category.as_str());
    let act = text::chars_of("대외활동");
    let kind = if text::seq_eq(&cat, &act) {
        Kind::Activity
    } else {
        Kind::Contest
    };
    let org_trim = text::trim_chars(&text::chars_of(c.organizer.as_str()));
    let start = match &c.start {
        Some(s) => {
            let cs = text::chars_of(s.as_str());
            if date::parse_ymd(&cs).is_some() {
                Some(s.clone())
            } else {
                None
            }
        },
        None => None,
    };
    let end = match &c.end {
        Some(s) => {
            let cs = text::chars_of(s.as_str());
            if date::parse_ymd(&cs).is_some() {
                Some(s.clone())
            } else {
                None
            }
        },
        None => None,
    };
    Notice {
        source: Source::Wevity,
        kind,
        title: c.title.clone(),
        url: c.url.clone(),
        start,
        end,
        organizer: if org_trim.len() == 0 {
            None
        } else {
            Some(c.organizer.clone())
        },
        field: crate::notice::clone_opt_string(&c.field),
    }
}

} // verus!
