//! The field extractor: an ordered fallback chain that turns raw detail
//! payloads into an optional start date, end date and organizer.
//!
//! Strategies, in priority order: structured key lookup on a JSON tree,
//! script-block pattern matching, and section-scoped free-text parsing
//! (date ranges and a label-anchored organizer read from the same text).
//! The first strategy that yields any field wins and the rest are skipped.

use vstd::prelude::*;
use crate::date;
use crate::json;
use crate::json::Json;
use crate::scan;
use crate::text;

verus! {

/// What the extractor found: `None` for a field means that no strategy
/// produced it, never an error.
pub struct ExtractionResult {
    pub start: Option<String>,
    pub end: Option<String>,
    pub organizer: Option<String>,
}

/// The spec-level image of an extraction result.
pub ghost struct ExtractionView {
    pub start: Option<Seq<char>>,
    pub end: Option<Seq<char>>,
    pub organizer: Option<Seq<char>>,
}

/// The view of an optional string.
pub open spec fn opt_view(o: Option<String>) -> Option<Seq<char>> {
    match o {
        Some(s) => Some(s@),
        None => None,
    }
}

impl ExtractionResult {
    /// The spec-level image of this result.
    pub open spec fn view_of(self) -> ExtractionView {
        ExtractionView {
            start: opt_view(self.start),
            end: opt_view(self.end),
            organizer: opt_view(self.organizer),
        }
    }
}

impl ExtractionView {
    /// Some field was found.
    pub open spec fn any_found(self) -> bool {
        self.start is Some || self.end is Some || self.organizer is Some
    }
}

/// A raw detail payload: a structured JSON tree, a parsed document reduced
/// to its inline-script text, its keyword sections and its visible text, or
/// bare visible text.
pub enum DetailPayload {
    Structured(Json),
    SemiStructured { scripts: String, sections: Vec<(String, String)>, full_text: String },
    Unstructured(String),
}

/// A name for the concatenated inline-script text that `scraper` collects
/// from a document: it depends on the document text alone.
pub uninterp spec fn scripts_in_html(s: Seq<char>) -> Seq<char>;

/// A name for the section list that `scraper` collects from a document:
/// for every section element, its own text and the concatenated text of its
/// paragraph-like descendants, each followed by a line break.
pub uninterp spec fn sections_in_html(s: Seq<char>) -> Seq<(Seq<char>, Seq<char>)>;

/// A name for the visible text that `scraper` collects from the root of a
/// document: it depends on the document text alone.
pub uninterp spec fn text_in_html(s: Seq<char>) -> Seq<char>;

/// Relies on `scraper::Html::parse_document` and `Selector`: collects the
/// text of every `script` element, one line per element.
#[verifier::external_body]
fn script_text_of(html: &str) -> (r: String)
    ensures
        r@ == scripts_in_html(html@),
{
    let doc = scraper::Html::parse_document(html);
    let sel = scraper::Selector::parse("script").unwrap();
    let mut out = String::new();
    for s in doc.select(&sel) {
        out.push_str(&s.text().collect::<String>());
        out.push('\n');
    }
    out
}

/// Relies on `scraper::Html::parse_document` and `Selector`: for every
/// `.section` element, its text and the text of its `p`, `li`, `dd` and
/// `div` descendants, one line per descendant.
#[verifier::external_body]
fn sections_of(html: &str) -> (r: Vec<(String, String)>)
    ensures
        r@.map_values(|p: (String, String)| (p.0@, p.1@)) == sections_in_html(html@),
{
    let doc = scraper::Html::parse_document(html);
    let sec_sel = scraper::Selector::parse("#container .section, .section").unwrap();
    let sub_sel = scraper::Selector::parse("p, li, dd, div").unwrap();
    let mut out = Vec::new();
    for sec in doc.select(&sec_sel) {
        let head: String = sec.text().collect();
        let mut parts = String::new();
        for node in sec.select(&sub_sel) {
            parts.push_str(&node.text().collect::<String>());
            parts.push('\n');
        }
        out.push((head, parts));
    }
    out
}

/// Relies on `scraper::Html::parse_document`: the text of the document's
/// root element.
#[verifier::external_body]
fn visible_text_of(html: &str) -> (r: String)
    ensures
        r@ == text_in_html(html@),
{
    let doc = scraper::Html::parse_document(html);
    doc.root_element().text().collect()
}

/// Reduces a fetched HTML document to a semi-structured payload.
pub fn payload_from_html(html: &str) -> (p: DetailPayload)
    ensures
        p matches DetailPayload::SemiStructured { scripts, sections, full_text } ==> {
            &&& scripts@ == scripts_in_html(html@)
            &&& sections@.map_values(|q: (String, String)| (q.0@, q.1@)) == sections_in_html(html@)
            &&& full_text@ == text_in_html(html@)
        },
        p is SemiStructured,
{
    DetailPayload::SemiStructured {
        scripts: script_text_of(html),
        sections: sections_of(html),
        full_text: visible_text_of(html),
    }
}

/// The string value under `key`, when `j` is an object binding `key` to a
/// string.
pub open spec fn get_str(j: Json, key: Seq<char>) -> Option<Seq<char>> {
    match json::get_spec(j, key) {
        Some(x) => json::as_str_spec(x),
        None => None,
    }
}

/// The structured start date: `startDate` at the top level, else under the
/// `data` wrapper.
pub open spec fn s1_start(j: Json) -> Option<Seq<char>> {
    if get_str(j, "startDate"@) is Some {
        get_str(j, "startDate"@)
    } else {
        match json::get_spec(j, "data"@) {
            Some(d) => get_str(d, "startDate"@),
            None => None,
        }
    }
}

/// The structured end date: `endDate`, else `deadline`, else `endDate`
/// under the `data` wrapper.
pub open spec fn s1_end(j: Json) -> Option<Seq<char>> {
    if get_str(j, "endDate"@) is Some {
        get_str(j, "endDate"@)
    } else if get_str(j, "deadline"@) is Some {
        get_str(j, "deadline"@)
    } else {
        match json::get_spec(j, "data"@) {
            Some(d) => get_str(d, "endDate"@),
            None => None,
        }
    }
}

/// The structured organizer: the company keys at the top level, else under
/// the `data` wrapper.
pub open spec fn s1_org(j: Json) -> Option<Seq<char>> {
    if json::first_company_spec(j) is Some {
        json::first_company_spec(j)
    } else {
        match json::get_spec(j, "data"@) {
            Some(d) => json::first_company_spec(d),
            None => None,
        }
    }
}

/// An optional date canonicalized to `YYYY-MM-DD`.
pub open spec fn canon_opt(o: Option<Seq<char>>) -> Option<Seq<char>> {
    match o {
        Some(s) => Some(date::canon_spec(s)),
        None => None,
    }
}

/// What the structured strategy yields on the tree `j`.
pub open spec fn s1_view(j: Json) -> ExtractionView {
    ExtractionView {
        start: canon_opt(s1_start(j)),
        end: canon_opt(s1_end(j)),
        organizer: s1_org(j),
    }
}

fn get_str_exec(j: &Json, key: &str) -> (r: Option<Vec<char>>)
    ensures
        match (r, get_str(*j, key@)) {
            (Some(h), Some(g)) => h@ == g,
            (None, None) => true,
            _ => false,
        },
{
    let k = text::chars_of(key);
    match json::json_get(j, &k) {
        Some(x) => match json::json_as_str(x) {
            Some(s) => Some(text::chars_of(s.as_str())),
            None => None,
        },
        None => None,
    }
}

fn canon_opt_exec(o: Option<Vec<char>>) -> (r: Option<String>)
    ensures
        opt_view(r) == canon_opt(
            match o {
                Some(v) => Some(v@),
                None => None,
            },
        ),
{
    match o {
        Some(v) => {
            let c = date::canon_date(&v);
            Some(text::string_of(&c))
        },
        None => None,
    }
}

/// Runs the structured strategy on the tree `j`; see [`s1_view`].
pub fn extract_structured(j: &Json) -> (r: ExtractionResult)
    ensures
        r.view_of() == s1_view(*j),
{
    let data_key = text::chars_of("data");
    let start_raw = match get_str_exec(j, "startDate") {
        Some(v) => Some(v),
        None => match json::json_get(j, &data_key) {
            Some(d) => get_str_exec(d, "startDate"),
            None => None,
        },
    };
    let end_raw = match get_str_exec(j, "endDate") {
        Some(v) => Some(v),
        None => match get_str_exec(j, "deadline") {
            Some(v) => Some(v),
            None => match json::json_get(j, &data_key) {
                Some(d) => get_str_exec(d, "endDate"),
                None => None,
            },
        },
    };
    let org = match json::first_company(j) {
        Some(c) => Some(text::string_of(&c)),
        None => match json::json_get(j, &data_key) {
            Some(d) => match json::first_company(d) {
                Some(c) => Some(text::string_of(&c)),
                None => None,
            },
            None => None,
        },
    };
    let r = ExtractionResult {
        start: canon_opt_exec(start_raw),
        end: canon_opt_exec(end_raw),
        organizer: org,
    };
    r
}

/// `x` inserted into `l` before the first entry it precedes
/// lexicographically.
pub open spec fn insert_str(x: Seq<char>, l: Seq<Seq<char>>) -> Seq<Seq<char>>
    decreases l.len(),
{
    if l.len() == 0 {
        seq![x]
    } else if text::lex_lt(x, l[0]) {
        seq![x] + l
    } else {
        seq![l[0]] + insert_str(x, l.drop_first())
    }
}

/// `l` sorted ascending by lexicographic order, by insertion.
pub open spec fn sort_strs(l: Seq<Seq<char>>) -> Seq<Seq<char>>
    decreases l.len(),
{
    if l.len() == 0 {
        Seq::empty()
    } else {
        insert_str(l[0], sort_strs(l.drop_first()))
    }
}

/// The entries of `l` from `i` on with runs of `prev` repeats dropped.
pub open spec fn dedup_from(l: Seq<Seq<char>>, i: int, prev: Seq<char>) -> Seq<Seq<char>>
    decreases l.len() - i when 0 <= i <= l.len()
{
    if i >= l.len() {
        Seq::empty()
    } else if l[i] == prev {
        dedup_from(l, i + 1, prev)
    } else {
        seq![l[i]] + dedup_from(l, i + 1, l[i])
    }
}

/// `l` with consecutive repeats dropped.
pub open spec fn dedup_adj(l: Seq<Seq<char>>) -> Seq<Seq<char>> {
    if l.len() == 0 {
        Seq::empty()
    } else {
        seq![l[0]] + dedup_from(l, 1, l[0])
    }
}

fn insert_str_exec(x: Vec<char>, l: Vec<Vec<char>>) -> (r: Vec<Vec<char>>)
    ensures
        r@.map_values(|w: Vec<char>| w@) == insert_str(x@, l@.map_values(|w: Vec<char>| w@)),
    decreases l@.len(),
{
    if l.len() == 0 {
        let mut r: Vec<Vec<char>> = Vec::new();
        r.push(x);
        proof {
            assert(r@.map_values(|w: Vec<char>| w@) =~= seq![x@]);
        }
        r
    } else if text::lex_lt_exec(&x, &l[0]) {
        let ghost lm = l@.map_values(|w: Vec<char>| w@);
        let mut r = l;
        r.insert(0, x);
        proof {
            assert(r@.map_values(|w: Vec<char>| w@) =~= seq![x@] + lm);
        }
        r
    } else {
        let ghost lm = l@.map_values(|w: Vec<char>| w@);
        let mut l2 = l;
        let head = l2.remove(0);
        proof {
            assert(l2@.map_values(|w: Vec<char>| w@) =~= lm.drop_first());
        }
        let rest = insert_str_exec(x, l2);
        let mut r = rest;
        r.insert(0, head);
        proof {
            assert(r@.map_values(|w: Vec<char>| w@) =~= seq![lm[0]] + insert_str(
                x@,
                lm.drop_first(),
            ));
        }
        r
    }
}

fn sort_strs_exec(l: Vec<Vec<char>>) -> (r: Vec<Vec<char>>)
    ensures
        r@.map_values(|w: Vec<char>| w@) == sort_strs(l@.map_values(|w: Vec<char>| w@)),
    decreases l@.len(),
{
    if l.len() == 0 {
        let r: Vec<Vec<char>> = Vec::new();
        proof {
            assert(r@.map_values(|w: Vec<char>| w@) =~= Seq::<Seq<char>>::empty());
            assert(l@.map_values(|w: Vec<char>| w@).len() == 0);
        }
        r
    } else {
        let ghost lm = l@.map_values(|w: Vec<char>| w@);
        let mut l2 = l;
        let head = l2.remove(0);
        proof {
            assert(l2@.map_values(|w: Vec<char>| w@) =~= lm.drop_first());
        }
        let sorted = sort_strs_exec(l2);
        insert_str_exec(head, sorted)
    }
}

fn dedup_exec(l: Vec<Vec<char>>) -> (r: Vec<Vec<char>>)
    ensures
        r@.map_values(|w: Vec<char>| w@) == dedup_adj(l@.map_values(|w: Vec<char>| w@)),
{
    let ghost lm = l@.map_values(|w: Vec<char>| w@);
    let mut r: Vec<Vec<char>> = Vec::new();
    if l.len() == 0 {
        proof {
            assert(r@.map_values(|w: Vec<char>| w@) =~= Seq::<Seq<char>>::empty());
        }
        return r;
    }
    r.push(l[0].clone());
    proof {
        assert(r@.map_values(|w: Vec<char>| w@) =~= seq![lm[0]]);
    }
    let mut i: usize = 1;
    let mut prev: usize = 0;
    while i < l.len()
        invariant
            1 <= i <= l@.len(),
            prev < i,
            lm == l@.map_values(|w: Vec<char>| w@),
            dedup_adj(lm) == r@.map_values(|w: Vec<char>| w@) + dedup_from(
                lm,
                i as int,
                lm[prev as int],
            ),
        decreases l@.len() - i,
    {
        if text::seq_eq(&l[i], &l[prev]) {
            i += 1;
        } else {
            let ghost prev_r = r@;
            r.push(l[i].clone());
            proof {
                assert(r@.map_values(|w: Vec<char>| w@) =~= prev_r.map_values(|w: Vec<char>| w@)
                    + seq![lm[i as int]]);
                assert(prev_r.map_values(|w: Vec<char>| w@) + (seq![lm[i as int]] + dedup_from(
                    lm,
                    i as int + 1,
                    lm[i as int],
                )) =~= (prev_r.map_values(|w: Vec<char>| w@) + seq![lm[i as int]]) + dedup_from(
                    lm,
                    i as int + 1,
                    lm[i as int],
                ));
            }
            prev = i;
            i += 1;
        }
    }
    r
}

/// The organizer the script strategy yields: every numbered organizer
/// value, sorted, with repeats dropped, joined by ` / `.
pub open spec fn s2_org(sc: Seq<char>) -> Option<Seq<char>> {
    let dd = dedup_adj(sort_strs(scan::companies_from(sc, 0)));
    if dd.len() > 0 {
        Some(text::join_with(dd, " / "@))
    } else {
        None
    }
}

/// What the script strategy yields on the script text `sc`.
pub open spec fn s2_view(sc: Seq<char>) -> ExtractionView {
    ExtractionView {
        start: canon_opt(scan::first_script_date(sc, "startDate"@, 0)),
        end: canon_opt(scan::first_script_date(sc, "endDate"@, 0)),
        organizer: s2_org(sc),
    }
}

/// Runs the script strategy on script text; see [`s2_view`].
pub fn extract_scripts(scripts: &String) -> (r: ExtractionResult)
    ensures
        r.view_of() == s2_view(scripts@),
{
    let sc = text::chars_of(scripts.as_str());
    let start_key = text::chars_of("startDate");
    let end_key = text::chars_of("endDate");
    let start = canon_opt_exec(scan::first_script_date_exec(&sc, &start_key));
    let end = canon_opt_exec(scan::first_script_date_exec(&sc, &end_key));
    let companies = scan::companies_exec(&sc);
    let dd = dedup_exec(sort_strs_exec(companies));
    let organizer = if dd.len() > 0 {
        let sep = text::chars_of(" / ");
        let joined = text::join_parts(&dd, &sep);
        proof {
            assert(dd@.map_values(|w: Vec<char>| w@).len() == dd@.len());
        }
        Some(text::string_of(&joined))
    } else {
        proof {
            assert(dd@.map_values(|w: Vec<char>| w@).len() == dd@.len());
        }
        None
    };
    ExtractionResult { start, end, organizer }
}

/// The section-header keywords that mark a period section.
pub open spec fn period_keywords() -> Seq<Seq<char>> {
    seq!["접수 기간"@, "모집 기간"@, "활동 기간"@, "교육 기간"@, "신청 기간"@, "운영 기간"@]
}

/// The section text names one of the period keywords.
pub open spec fn sec_matches(t: Seq<char>) -> bool {
    exists|k: int| 0 <= k < period_keywords().len() && text::contains_seq(t, period_keywords()[k])
}

/// The concatenated descendant text of every section whose own text names
/// a period keyword.
pub open spec fn picked_text(secs: Seq<(Seq<char>, Seq<char>)>) -> Seq<char>
    decreases secs.len(),
{
    if secs.len() == 0 {
        Seq::empty()
    } else {
        (if sec_matches(secs[0].0) {
            secs[0].1
        } else {
            Seq::empty()
        }) + picked_text(secs.drop_first())
    }
}

/// The text the free-text strategies read: the period sections when any
/// matched, else the whole visible text, whitespace-normalized either way.
pub open spec fn relevant_text(secs: Seq<(Seq<char>, Seq<char>)>, full: Seq<char>) -> Seq<char> {
    let p = picked_text(secs);
    if text::trim_spec(p).len() == 0 {
        text::norm_ws(full)
    } else {
        text::norm_ws(p)
    }
}

fn period_keyword(i: usize) -> (k: &'static str)
    requires
        i < 6,
    ensures
        k@ == period_keywords()[i as int],
{
    match i {
        0 => "접수 기간",
        1 => "모집 기간",
        2 => "활동 기간",
        3 => "교육 기간",
        4 => "신청 기간",
        _ => "운영 기간",
    }
}

fn sec_matches_exec(t: &Vec<char>) -> (r: bool)
    ensures
        r == sec_matches(t@),
{
    let mut k: usize = 0;
    while k < 6
        invariant
            k <= 6,
            forall|m: int| 0 <= m < k ==> !text::contains_seq(t@, period_keywords()[m]),
        decreases 6 - k,
    {
        let kw = text::chars_of(period_keyword(k));
        if text::contains_sub(t, &kw) {
            return true;
        }
        k += 1;
    }
    false
}

/// Selects the text the free-text strategies read; see [`relevant_text`].
pub fn relevant_text_exec(sections: &Vec<(String, String)>, full: &String) -> (r: Vec<char>)
    ensures
        r@ == relevant_text(
            sections@.map_values(|p: (String, String)| (p.0@, p.1@)),
            full@,
        ),
{
    let ghost m = sections@.map_values(|p: (String, String)| (p.0@, p.1@));
    let mut picked: Vec<char> = Vec::new();
    let mut i: usize = 0;
    proof {
        assert(m.skip(0) =~= m);
    }
    while i < sections.len()
        invariant
            i <= sections@.len(),
            m == sections@.map_values(|p: (String, String)| (p.0@, p.1@)),
            picked_text(m) == picked@ + picked_text(m.skip(i as int)),
        decreases sections@.len() - i,
    {
        proof {
            assert(m.skip(i as int)[0] == m[i as int]);
            assert(m.skip(i as int).drop_first() =~= m.skip(i as int + 1));
        }
        let head = text::chars_of(sections[i].0.as_str());
        if sec_matches_exec(&head) {
            let parts = text::chars_of(sections[i].1.as_str());
            text::push_all(&mut picked, &parts);
        }
        i += 1;
    }
    proof {
        assert(picked_text(m.skip(i as int)) =~= Seq::<char>::empty());
        assert(picked@ + picked_text(m.skip(i as int)) =~= picked@);
        assert(picked@ == picked_text(m));
    }
    let tp = text::trim_chars(&picked);
    if tp.len() == 0 {
        let fv = text::chars_of(full.as_str());
        text::collapse_ws(&fv)
    } else {
        text::collapse_ws(&picked)
    }
}

/// The year named by the first four characters of a date hint, when they
/// are digits.
pub open spec fn hint_year(h: Option<Seq<char>>) -> Option<int> {
    match h {
        Some(s) => if s.len() >= 4 && date::is_digit(s[0]) && date::is_digit(s[1]) && date::is_digit(
            s[2],
        ) && date::is_digit(s[3]) {
            Some(scan::digits_val(s, 0, 4))
        } else {
            None
        },
        None => None,
    }
}

/// Extracts the hint year; see [`hint_year`].
pub fn hint_year_exec(h: &Option<String>) -> (r: Option<u64>)
    ensures
        match (r, hint_year(opt_view(*h))) {
            (Some(v), Some(g)) => v as int == g && v <= 9999,
            (None, None) => true,
            _ => false,
        },
{
    match h {
        Some(s) => {
            let cs = text::chars_of(s.as_str());
            if cs.len() >= 4 && date::is_digit_char(cs[0]) && date::is_digit_char(cs[1])
                && date::is_digit_char(cs[2]) && date::is_digit_char(cs[3]) {
                Some(scan::digits_val_exec(&cs, 0, 4))
            } else {
                None
            }
        },
        None => None,
    }
}

/// A year written to width four, the sign leading for a negative year.
pub open spec fn fmt4(y: int) -> Seq<char> {
    if y >= 0 {
        text::pad_zeros(text::dec_rep(y as nat), 4)
    } else {
        seq!['-'] + text::pad_zeros(text::dec_rep((-y) as nat), 3)
    }
}

/// A date assembled from numeric fields as `YYYY-MM-DD`.
pub open spec fn fmt_num_date(y: int, m: int, d: int) -> Seq<char>
    recommends
        m >= 0,
        d >= 0,
{
    fmt4(y) + seq!['-'] + text::pad_zeros(text::dec_rep(m as nat), 2) + seq!['-']
        + text::pad_zeros(text::dec_rep(d as nat), 2)
}

fn fmt_num_date_exec(y: i64, m: u64, d: u64) -> (r: Vec<char>)
    requires
        -100000 <= y <= 100000,
    ensures
        r@ == fmt_num_date(y as int, m as int, d as int),
{
    let mut out: Vec<char> = if y >= 0 {
        text::fmt_u64_pad(y as u64, 4)
    } else {
        let mut v: Vec<char> = Vec::new();
        v.push('-');
        let mag = text::fmt_u64_pad((-y) as u64, 3);
        text::push_all(&mut v, &mag);
        v
    };
    out.push('-');
    let mm = text::fmt_u64_pad(m, 2);
    text::push_all(&mut out, &mm);
    out.push('-');
    let dd = text::fmt_u64_pad(d, 2);
    text::push_all(&mut out, &dd);
    proof {
        assert(out@ =~= fmt_num_date(y as int, m as int, d as int));
    }
    out
}

/// The resolved end-side year: the written year, else the hint year, else
/// the current year.
pub open spec fn year2_of(has2: bool, y2: int, hint: Option<int>, this_year: int) -> int {
    if has2 {
        y2
    } else {
        match hint {
            Some(hy) => hy,
            None => this_year,
        }
    }
}

/// The resolved start-side year: the written year; else the resolved end
/// year, less one when both years were omitted and the start month exceeds
/// the end month (the range spans a year boundary).
pub open spec fn year1_of(has1: bool, y1: int, has2: bool, m1: int, m2: int, y2r: int) -> int {
    if has1 {
        y1
    } else if !has2 && m1 > m2 {
        y2r - 1
    } else {
        y2r
    }
}

/// The date range the free-text date strategies yield, in priority order:
/// a numeric range, a localized range with year inference, a single
/// localized date followed by a deadline marker word, read as an end date.
pub open spec fn dates_from_text(s: Seq<char>, hint: Option<int>, this_year: int) -> Option<
    (Option<Seq<char>>, Option<Seq<char>>),
> {
    match scan::first_numeric_range(s, 0) {
        Some(h) => Some((Some(fmt_num_date(h.0, h.1, h.2)), Some(fmt_num_date(h.3, h.4, h.5)))),
        None => match scan::first_kr_range(s, 0) {
            Some(r) => {
                let y2 = year2_of(r.side2.has_year, r.side2.year, hint, this_year);
                let y1 = year1_of(
                    r.side1.has_year,
                    r.side1.year,
                    r.side2.has_year,
                    r.side1.md.m,
                    r.side2.md.m,
                    y2,
                );
                Some(
                    (
                        Some(fmt_num_date(y1, r.side1.md.m, r.side1.md.d)),
                        Some(fmt_num_date(y2, r.side2.md.m, r.side2.md.d)),
                    ),
                )
            },
            None => match scan::first_kr_deadline(s, 0) {
                Some(sd) => {
                    let y = year2_of(sd.has_year, sd.year, hint, this_year);
                    Some((None, Some(fmt_num_date(y, sd.md.m, sd.md.d))))
                },
                None => None,
            },
        },
    }
}

/// The organizer the free-text strategy yields: the first label-anchored
/// phrase, split on common delimiters and rejoined by ` / `.
pub open spec fn org_from_text(s: Seq<char>) -> Option<Seq<char>> {
    match scan::first_org(s, 0) {
        Some(cap) => {
            let ps = scan::org_parts(cap);
            if ps.len() > 0 {
                Some(text::join_with(ps, " / "@))
            } else {
                None
            }
        },
        None => None,
    }
}

/// What the free-text strategies yield on the prepared text `txt`.
pub open spec fn text_view(txt: Seq<char>, hint: Option<int>, this_year: int) -> ExtractionView {
    let o = org_from_text(txt);
    match dates_from_text(txt, hint, this_year) {
        Some((s, e)) => ExtractionView { start: s, end: e, organizer: o },
        None => ExtractionView { start: None, end: None, organizer: o },
    }
}

/// Runs the free-text strategies on prepared text; see [`text_view`].
pub fn extract_text(txt: &Vec<char>, hint: Option<u64>, this_year: u64) -> (r: ExtractionResult)
    requires
        hint matches Some(v) ==> v <= 9999,
        this_year <= 9999,
    ensures
        r.view_of() == text_view(
            txt@,
            match hint {
                Some(v) => Some(v as int),
                None => None,
            },
            this_year as int,
        ),
{
    let organizer = match scan::first_org_exec(txt) {
        Some(cap) => {
            let ps = scan::org_parts_exec(&cap);
            if ps.len() > 0 {
                let sep = text::chars_of(" / ");
                let joined = text::join_parts(&ps, &sep);
                proof {
                    assert(ps@.map_values(|w: Vec<char>| w@).len() == ps@.len());
                }
                Some(text::string_of(&joined))
            } else {
                proof {
                    assert(ps@.map_values(|w: Vec<char>| w@).len() == ps@.len());
                }
                None
            }
        },
        None => None,
    };
    let dates: Option<(Option<Vec<char>>, Option<Vec<char>>)> = if let Some(h) =
        scan::first_numeric_range_exec(txt) {
        Some(
            (
                Some(fmt_num_date_exec(h.0 as i64, h.1, h.2)),
                Some(fmt_num_date_exec(h.3 as i64, h.4, h.5)),
            ),
        )
    } else if let Some((s1, s2)) = scan::first_kr_range_exec(txt) {
        let y2: u64 = if s2.0 {
            s2.1
        } else {
            match hint {
                Some(hy) => hy,
                None => this_year,
            }
        };
        let y1: i64 = if s1.0 {
            s1.1 as i64
        } else if !s2.0 && s1.2 > s2.2 {
            y2 as i64 - 1
        } else {
            y2 as i64
        };
        Some(
            (
                Some(fmt_num_date_exec(y1, s1.2, s1.3)),
                Some(fmt_num_date_exec(y2 as i64, s2.2, s2.3)),
            ),
        )
    } else if let Some(sd) = scan::first_kr_deadline_exec(txt) {
        let y: u64 = if sd.0 {
            sd.1
        } else {
            match hint {
                Some(hy) => hy,
                None => this_year,
            }
        };
        Some((None, Some(fmt_num_date_exec(y as i64, sd.2, sd.3))))
    } else {
        None
    };
    match dates {
        Some((s, e)) => ExtractionResult {
            start: match s {
                Some(v) => Some(text::string_of(&v)),
                None => None,
            },
            end: match e {
                Some(v) => Some(text::string_of(&v)),
                None => None,
            },
            organizer,
        },
        None => ExtractionResult { start: None, end: None, organizer },
    }
}

/// What the structured strategy yields over the payload list, from `i` on:
/// the first structured payload on which it finds any field.
pub open spec fn payloads_s1(ps: Seq<DetailPayload>, i: int) -> Option<ExtractionView>
    decreases ps.len() - i when 0 <= i <= ps.len()
{
    if i >= ps.len() {
        None
    } else {
        match ps[i] {
            DetailPayload::Structured(j) => if s1_view(j).any_found() {
                Some(s1_view(j))
            } else {
                payloads_s1(ps, i + 1)
            },
            _ => payloads_s1(ps, i + 1),
        }
    }
}

/// What the script strategy yields over the payload list, from `i` on.
pub open spec fn payloads_s2(ps: Seq<DetailPayload>, i: int) -> Option<ExtractionView>
    decreases ps.len() - i when 0 <= i <= ps.len()
{
    if i >= ps.len() {
        None
    } else {
        match ps[i] {
            DetailPayload::SemiStructured { scripts, .. } => if s2_view(scripts@).any_found() {
                Some(s2_view(scripts@))
            } else {
                payloads_s2(ps, i + 1)
            },
            _ => payloads_s2(ps, i + 1),
        }
    }
}

/// The prepared free text of a payload, when it carries text.
pub open spec fn payload_text_of(p: DetailPayload) -> Option<Seq<char>> {
    match p {
        DetailPayload::SemiStructured { scripts, sections, full_text } => Some(
            relevant_text(
                sections@.map_values(|q: (String, String)| (q.0@, q.1@)),
                full_text@,
            ),
        ),
        DetailPayload::Unstructured(s) => Some(text::norm_ws(s@)),
        DetailPayload::Structured(_) => None,
    }
}

/// What the free-text strategies yield over the payload list, from `i` on.
pub open spec fn payloads_text(
    ps: Seq<DetailPayload>,
    i: int,
    hint: Option<int>,
    this_year: int,
) -> Option<ExtractionView>
    decreases ps.len() - i when 0 <= i <= ps.len()
{
    if i >= ps.len() {
        None
    } else {
        match payload_text_of(ps[i]) {
            Some(txt) => if text_view(txt, hint, this_year).any_found() {
                Some(text_view(txt, hint, this_year))
            } else {
                payloads_text(ps, i + 1, hint, this_year)
            },
            None => payloads_text(ps, i + 1, hint, this_year),
        }
    }
}

/// The extractor chain over a payload list: the structured strategy over
/// all payloads, else the script strategy, else the free-text strategies,
/// else an empty result.
pub open spec fn extract_spec(
    ps: Seq<DetailPayload>,
    hint: Option<Seq<char>>,
    this_year: int,
) -> ExtractionView {
    match payloads_s1(ps, 0) {
        Some(v) => v,
        None => match payloads_s2(ps, 0) {
            Some(v) => v,
            None => match payloads_text(ps, 0, hint_year(hint), this_year) {
                Some(v) => v,
                None => ExtractionView { start: None, end: None, organizer: None },
            },
        },
    }
}

/// Fallback ordering: when a structured payload carries a start date, the
/// structured strategy wins the whole chain, whatever any accompanying
/// script block says.
pub proof fn lemma_structured_wins(
    ps: Seq<DetailPayload>,
    i: int,
    j: Json,
    hint: Option<Seq<char>>,
    this_year: int,
)
    requires
        0 <= i < ps.len(),
        ps[i] == DetailPayload::Structured(j),
        forall|k: int| 0 <= k < i ==> !(ps[k] is Structured),
        s1_start(j) is Some,
    ensures
        extract_spec(ps, hint, this_year).start == canon_opt(s1_start(j)),
        extract_spec(ps, hint, this_year).end == canon_opt(s1_end(j)),
        extract_spec(ps, hint, this_year).organizer == s1_org(j),
    decreases ps.len(),
{
    lemma_s1_scan(ps, 0, i, j);
}

proof fn lemma_s1_scan(ps: Seq<DetailPayload>, k: int, i: int, j: Json)
    requires
        0 <= k <= i < ps.len(),
        ps[i] == DetailPayload::Structured(j),
        forall|m: int| k <= m < i ==> !(ps[m] is Structured),
        s1_view(j).any_found(),
    ensures
        payloads_s1(ps, k) == Some(s1_view(j)),
    decreases i - k,
{
    if k < i {
        lemma_s1_scan(ps, k + 1, i, j);
    }
}

/// Year inference of the localized range: the start year equals the
/// resolved end year, except that it is one less when both years were
/// omitted and the start month exceeds the end month.
pub proof fn lemma_kr_year_rule(r: scan::KrRange, hint: Option<int>, this_year: int)
    ensures
        ({
            let y2 = year2_of(r.side2.has_year, r.side2.year, hint, this_year);
            let y1 = year1_of(
                r.side1.has_year,
                r.side1.year,
                r.side2.has_year,
                r.side1.md.m,
                r.side2.md.m,
                y2,
            );
            &&& (!r.side1.has_year && !r.side2.has_year && r.side1.md.m > r.side2.md.m) ==> y1
                == y2 - 1
            &&& (!r.side1.has_year && r.side1.md.m <= r.side2.md.m) ==> y1 == y2
            &&& (!r.side1.has_year && r.side2.has_year) ==> y1 == y2
        }),
{
}

fn any_found_exec(r: &ExtractionResult) -> (b: bool)
    ensures
        b == r.view_of().any_found(),
{
    r.start.is_some() || r.end.is_some() || r.organizer.is_some()
}

/// Runs the extractor chain; see [`extract_spec`]. `end_hint` supplies the
/// year for localized dates without one; `this_year` is the fallback year.
pub fn extract(payloads: &Vec<DetailPayload>, end_hint: &Option<String>, this_year: u64) -> (r:
    ExtractionResult)
    requires
        this_year <= 9999,
    ensures
        r.view_of() == extract_spec(payloads@, opt_view(*end_hint), this_year as int),
{
    let mut i: usize = 0;
    while i < payloads.len()
        invariant
            i <= payloads@.len(),
            payloads_s1(payloads@, 0) == payloads_s1(payloads@, i as int),
        decreases payloads@.len() - i,
    {
        if let DetailPayload::Structured(j) = &payloads[i] {
            let r = extract_structured(j);
            if any_found_exec(&r) {
                return r;
            }
        }
        i += 1;
    }
    let mut i2: usize = 0;
    while i2 < payloads.len()
        invariant
            i2 <= payloads@.len(),
            payloads_s1(payloads@, 0) is None,
            payloads_s2(payloads@, 0) == payloads_s2(payloads@, i2 as int),
        decreases payloads@.len() - i2,
    {
        if let DetailPayload::SemiStructured { scripts, .. } = &payloads[i2] {
            let r = extract_scripts(scripts);
            if any_found_exec(&r) {
                return r;
            }
        }
        i2 += 1;
    }
    let hint = hint_year_exec(end_hint);
    let mut i3: usize = 0;
    while i3 < payloads.len()
        invariant
            i3 <= payloads@.len(),
            payloads_s1(payloads@, 0) is None,
            payloads_s2(payloads@, 0) is None,
            hint matches Some(v) ==> v <= 9999,
            this_year <= 9999,
            match (hint, hint_year(opt_view(*end_hint))) {
                (Some(v), Some(g)) => v as int == g,
                (None, None) => true,
                _ => false,
            },
            payloads_text(
                payloads@,
                0,
                hint_year(opt_view(*end_hint)),
                this_year as int,
            ) == payloads_text(
                payloads@,
                i3 as int,
                hint_year(opt_view(*end_hint)),
                this_year as int,
            ),
        decreases payloads@.len() - i3,
    {
        let txt: Option<Vec<char>> = match &payloads[i3] {
            DetailPayload::SemiStructured { scripts, sections, full_text } => Some(
                relevant_text_exec(sections, full_text),
            ),
            DetailPayload::Unstructured(s) => {
                let cs = text::chars_of(s.as_str());
                Some(text::collapse_ws(&cs))
            },
            DetailPayload::Structured(_) => None,
        };
        if let Some(tv) = txt {
            let r = extract_text(&tv, hint, this_year);
            if any_found_exec(&r) {
                return r;
            }
        }
        i3 += 1;
    }
    ExtractionResult { start: None, end: None, organizer: None }
}

} // verus!
