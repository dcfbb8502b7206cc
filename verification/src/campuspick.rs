//! The campuspick source adapter: listing-entry screening against category
//! and keyword filters, detail-field completion, the deadline window, and
//! normalization into the shared schema.

use vstd::prelude::*;
use crate::date;
use crate::date::Date;
use crate::extract::ExtractionResult;
use crate::json::Json;
use crate::json;
use crate::notice::{Notice, Source, Kind, infer_kind_spec};
use crate::text;

verus! {

/// The site base every detail URL starts with.
pub open spec fn web_base() -> Seq<char> {
    "https://www.campuspick.com/"@
}

/// One screened and completed campuspick listing row.
#[derive(Clone, Debug)]
pub struct Row {
    pub kind: String,
    pub title: String,
    pub url: String,
    pub start: Option<String>,
    pub end: Option<String>,
    pub company: Option<String>,
}

/// Lowercases and whitespace-normalizes free text.
pub fn normalize(s: &str) -> (r: String)
    ensures
        r@ == text::norm_ws(text::lower_of(s@)),
{
    let low = text::lowercase(s);
    let cs = text::chars_of(low.as_str());
    text::string_of(&text::collapse_ws(&cs))
}

/// The activity-title keywords, as written.
pub open spec fn title_keywords() -> Seq<Seq<char>> {
    seq![
        "IT"@,
        "SW"@,
        "코딩"@,
        "소프트웨어"@,
        "컴퓨터"@,
        "보안"@,
        "정보보호"@,
        "KISIA"@,
        "개인정보"@,
        "개발자"@,
        "AI"@,
        "엔지니어"@,
        "부트캠프"@,
    ]
}

/// The normalized title names one of the keywords, compared after both
/// sides are lowercased and whitespace-normalized.
pub open spec fn title_kw_hit(title: Seq<char>) -> bool {
    exists|k: int|
        0 <= k < title_keywords().len() && text::contains_seq(
            text::norm_ws(text::lower_of(title)),
            text::norm_ws(text::lower_of(title_keywords()[k])),
        )
}

fn title_keyword(i: usize) -> (k: &'static str)
    requires
        i < 13,
    ensures
        k@ == title_keywords()[i as int],
{
    match i {
        0 => "IT",
        1 => "SW",
        2 => "코딩",
        3 => "소프트웨어",
        4 => "컴퓨터",
        5 => "보안",
        6 => "정보보호",
        7 => "KISIA",
        8 => "개인정보",
        9 => "개발자",
        10 => "AI",
        11 => "엔지니어",
        12 => "부트캠프",
        _ => "",
    }
}

/// Whether a title names one of the activity keywords; see
/// [`title_kw_hit`].
pub fn title_keyword_hit(title: &str) -> (r: bool)
    ensures
        r == title_kw_hit(title@),
{
    let t = normalize(title);
    let tc = text::chars_of(t.as_str());
    let mut k: usize = 0;
    while k < 13
        invariant
            tc@ == text::norm_ws(text::lower_of(title@)),
            k <= 13,
            forall|m: int|
                0 <= m < k ==> !text::contains_seq(
                    tc@,
                    text::norm_ws(text::lower_of(title_keywords()[m])),
                ),
        decreases 13 - k,
    {
        let kw = normalize(title_keyword(k));
        let kwc = text::chars_of(kw.as_str());
        if text::contains_sub(&tc, &kwc) {
            return true;
        }
        k += 1;
    }
    false
}

/// Date normalization for this source: the shared canonicalizer.
pub fn normalize_date(s: &str) -> (r: String)
    ensures
        r@ == date::canon_spec(s@),
{
    let cs = text::chars_of(s);
    text::string_of(&date::canon_date(&cs))
}

/// The detail URL of an entry: the activity view for the activity feed,
/// the contest view otherwise.
pub open spec fn detail_url_spec(kind: Seq<char>, id: Seq<char>) -> Seq<char> {
    if kind == "activity"@ {
        web_base() + "activity/view?id="@ + id
    } else {
        web_base() + "contest/view?id="@ + id
    }
}

/// Builds the detail URL of an entry; see [`detail_url_spec`].
pub fn build_detail_url(kind: &str, id: &Vec<char>) -> (r: String)
    ensures
        r@ == detail_url_spec(kind@, id@),
{
    let kc = text::chars_of(kind);
    let act = text::chars_of("activity");
    let mut out: Vec<char> = if text::seq_eq(&kc, &act) {
        text::chars_of("https://www.campuspick.com/activity/view?id=")
    } else {
        text::chars_of("https://www.campuspick.com/contest/view?id=")
    };
    text::push_all(&mut out, id);
    proof {
        reveal_strlit("https://www.campuspick.com/");
        reveal_strlit("activity/view?id=");
        reveal_strlit("contest/view?id=");
        reveal_strlit("https://www.campuspick.com/activity/view?id=");
        reveal_strlit("https://www.campuspick.com/contest/view?id=");
        assert(out@ =~= detail_url_spec(kind@, id@));
    }
    text::string_of(&out)
}

/// A listing candidate that passed the first-pass filters: its identity
/// key, title, and the fields already present on the listing page.
pub struct Candidate {
    pub id: String,
    pub title: String,
    pub start0: Option<String>,
    pub end0: Option<String>,
    pub company0: Option<String>,
}

/// The inline date under `key`, canonicalized, when the entry binds `key`
/// to a string.
pub open spec fn listing_date(j: Json, key: Seq<char>) -> Option<Seq<char>> {
    match crate::extract::get_str(j, key) {
        Some(s) => Some(date::canon_spec(s)),
        None => None,
    }
}

/// The inline end date: `endDate`, else `deadline`.
pub open spec fn listing_end(j: Json) -> Option<Seq<char>> {
    if listing_date(j, "endDate"@) is Some {
        listing_date(j, "endDate"@)
    } else {
        listing_date(j, "deadline"@)
    }
}

/// What screening one listing entry of the given feed yields: the entry
/// must have an identifier and a title; the contest feed keeps category
/// 108 only, the activity feed keeps keyword-matching titles only. The
/// candidate carries the inline dates, canonicalized, and the inline
/// organizer.
pub open spec fn screen_spec(kind: Seq<char>, j: Json) -> Option<
    (Seq<char>, Seq<char>, Option<Seq<char>>, Option<Seq<char>>, Option<Seq<char>>),
> {
    match json::get_id_spec(j) {
        Some(id) => match json::listing_title_spec(j) {
            Some(title) => {
                if title.len() == 0 {
                    None
                } else if kind == "contest"@ && !json::match_category_108_spec(j) {
                    None
                } else if kind == "activity"@ && !title_kw_hit(title) {
                    None
                } else {
                    Some(
                        (
                            id,
                            title,
                            listing_date(j, "startDate"@),
                            listing_end(j),
                            json::first_company_spec(j),
                        ),
                    )
                }
            },
            None => None,
        },
        None => None,
    }
}

fn listing_date_exec(j: &Json, key: &str) -> (r: Option<String>)
    ensures
        crate::extract::opt_view(r) == listing_date(*j, key@),
{
    let kc = text::chars_of(key);
    match json::json_get(j, &kc) {
        Some(x) => match json::json_as_str(x) {
            Some(s) => Some(normalize_date(s.as_str())),
            None => None,
        },
        None => None,
    }
}

/// Screens one listing entry; see [`screen_spec`].
pub fn screen_entry(kind: &str, j: &Json) -> (r: Option<Candidate>)
    ensures
        match (r, screen_spec(kind@, *j)) {
            (Some(c), Some(g)) => {
                &&& c.id@ == g.0
                &&& c.title@ == g.1
                &&& crate::extract::opt_view(c.start0) == g.2
                &&& crate::extract::opt_view(c.end0) == g.3
                &&& crate::extract::opt_view(c.company0) == g.4
                &&& c.title@.len() > 0
            },
            (None, None) => true,
            _ => false,
        },
{
    let id = match json::get_id(j) {
        Some(v) => v,
        None => {
            return None;
        },
    };
    let title = match json::listing_title(j) {
        Some(v) => v,
        None => {
            return None;
        },
    };
    if title.len() == 0 {
        return None;
    }
    let kc = text::chars_of(kind);
    let contest = text::chars_of("contest");
    let activity = text::chars_of("activity");
    let title_s = text::string_of(&title);
    if text::seq_eq(&kc, &contest) && !json::match_category_108(j) {
        return None;
    }
    if text::seq_eq(&kc, &activity) && !title_keyword_hit(title_s.as_str()) {
        return None;
    }
    let start0 = listing_date_exec(j, "startDate");
    let end0 = match listing_date_exec(j, "endDate") {
        Some(v) => Some(v),
        None => listing_date_exec(j, "deadline"),
    };
    let company0 = match json::first_company(j) {
        Some(c) => Some(text::string_of(&c)),
        None => None,
    };
    Some(Candidate { id: text::string_of(&id), title: title_s, start0, end0, company0 })
}

/// The first of two optional fields that is present.
pub open spec fn or_opt(a: Option<String>, b: Option<String>) -> Option<String> {
    if a is Some {
        a
    } else {
        b
    }
}

/// Completes a candidate into a row: listing fields win over extracted
/// ones, and the row is kept only when its resolved end date parses and
/// falls inside the deadline window.
pub open spec fn finish_spec(
    c: Candidate,
    ex: ExtractionResult,
    today: Date,
    window: int,
) -> Option<(Option<String>, Option<String>, Option<String>)> {
    let start = or_opt(c.start0, ex.start);
    let end = or_opt(c.end0, ex.end);
    let company = or_opt(c.company0, ex.organizer);
    match end {
        Some(e) => match date::parse_ymd_spec(e@) {
            Some(ed) => if date::in_window(ed, today, window) {
                Some((start, Some(e), company))
            } else {
                None
            },
            None => None,
        },
        None => None,
    }
}

fn or_opt_exec(a: Option<String>, b: Option<String>) -> (r: Option<String>)
    ensures
        r == or_opt(a, b),
{
    if a.is_some() {
        a
    } else {
        b
    }
}

/// Completes a candidate into a row inside the window; see
/// [`finish_spec`].
pub fn finish_row(kind: &str, c: Candidate, ex: ExtractionResult, today: &Date, window: i64) -> (r:
    Option<Row>)
    requires
        today.wf(),
    ensures
        match (r, finish_spec(c, ex, *today, window as int)) {
            (Some(row), Some(g)) => {
                &&& row.kind@ == kind@
                &&& row.title == c.title
                &&& row.url@ == detail_url_spec(kind@, c.id@)
                &&& row.start == g.0
                &&& row.end == g.1
                &&& row.company == g.2
            },
            (None, None) => true,
            _ => false,
        },
{
    let start = or_opt_exec(c.start0, ex.start);
    let end = or_opt_exec(c.end0, ex.end);
    let company = or_opt_exec(c.company0, ex.organizer);
    match end {
        Some(e) => {
            let ec = text::chars_of(e.as_str());
            match date::parse_ymd(&ec) {
                Some(ed) => {
                    if date::in_window_exec(&ed, today, window) {
                        let idc = text::chars_of(c.id.as_str());
                        let url = build_detail_url(kind, &idc);
                        Some(
                            Row {
                                kind: kind.to_owned(),
                                title: c.title,
                                url,
                                start,
                                end: Some(e),
                                company,
                            },
                        )
                    } else {
                        None
                    }
                },
                None => None,
            }
        },
        None => None,
    }
}

/// The normalized record of a campuspick row. The kind is inferred from
/// the row's feed label and overridden by the URL path; only valid literal
/// dates are kept.
pub open spec fn campuspick_notice_spec(r: Row) -> Notice {
    let lurl = text::lower_of(r.url@);
    let label_kind = infer_kind_spec(text::lower_of(text::trim_spec(r.kind@)), Kind::Contest);
    let kind = if text::contains_seq(lurl, "/activity/"@) || text::contains_seq(
        lurl,
        "activity/view"@,
    ) {
        Kind::Activity
    } else if text::contains_seq(lurl, "/contest/"@) || text::contains_seq(
        lurl,
        "contest/view"@,
    ) {
        Kind::Contest
    } else {
        label_kind
    };
    Notice {
        source: Source::Campuspick,
        kind,
        title: r.title,
        url: r.url,
        start: if crate::notice::date_field_wf(r.start) {
            r.start
        } else {
            None
        },
        end: if crate::notice::date_field_wf(r.end) {
            r.end
        } else {
            None
        },
        organizer: r.company,
        field: None,
    }
}

/// Normalizes a campuspick row; see [`campuspick_notice_spec`].
pub fn to_notice_from_campuspick(r: &Row) -> (n: Notice)
    requires
        r.title@.len() > 0,
        r.url@.len() > 0,
    ensures
        n == campuspick_notice_spec(*r),
        n.wf(),
{
    let kind0 = crate::notice::infer_kind_from_label(r.kind.as_str(), Kind::Contest);
    let lurl_s = text::lowercase(r.url.as_str());
    let lurl = text::chars_of(lurl_s.as_str());
    let kind = if text::contains_sub(&lurl, &text::chars_of("/activity/")) || text::contains_sub(
        &lurl,
        &text::chars_of("activity/view"),
    ) {
        Kind::Activity
    } else if text::contains_sub(&lurl, &text::chars_of("/contest/")) || text::contains_sub(
        &lurl,
        &text::chars_of("contest/view"),
    ) {
        Kind::Contest
    } else {
        kind0
    };
    let start = match &r.start {
        Some(s) => {
            let cs = text::chars_of(s.as_str());
            if date::parse_ymd(&cs).is_some() {
                Some(s.clone())
            } else {
                None
            }
        },
        None => None,
    };
    let end = match &r.end {
        Some(s) => {
            let cs = text::chars_of(s.as_str());
            if date::parse_ymd(&cs).is_some() {
                Some(s.clone())
            } else {
                None
            }
        },
        None => None,
    };
    Notice {
        source: Source::Campuspick,
        kind,
        title: r.title.clone(),
        url: r.url.clone(),
        start,
        end,
        organizer: crate::notice::clone_opt_string(&r.company),
        field: None,
    }
}

} // verus!
