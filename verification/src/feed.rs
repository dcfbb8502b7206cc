//! What the feed writer consumes: one prepared entry per notice, in the
//! given order. Serialization itself is the writer's business; this module
//! computes every text the writer emits.

use vstd::prelude::*;
use crate::date;
use crate::date::Date;
use crate::notice::{Notice, Kind, opt_or_dash};
use crate::text;

verus! {

/// The weekday of a date: 0 for Sunday through 6 for Saturday, from the
/// day number (1970-01-01 was a Thursday).
pub open spec fn weekday_of(d: Date) -> int {
    (date::day_number(d.y as int, d.m as int, d.d as int) + 4) % 7
}

/// The English short weekday names, Sunday first.
pub open spec fn weekday_name(w: int) -> Seq<char> {
    if w == 0 {
        "Sun"@
    } else if w == 1 {
        "Mon"@
    } else if w == 2 {
        "Tue"@
    } else if w == 3 {
        "Wed"@
    } else if w == 4 {
        "Thu"@
    } else if w == 5 {
        "Fri"@
    } else {
        "Sat"@
    }
}

/// The English short month names.
pub open spec fn month_name(m: int) -> Seq<char> {
    if m == 1 {
        "Jan"@
    } else if m == 2 {
        "Feb"@
    } else if m == 3 {
        "Mar"@
    } else if m == 4 {
        "Apr"@
    } else if m == 5 {
        "May"@
    } else if m == 6 {
        "Jun"@
    } else if m == 7 {
        "Jul"@
    } else if m == 8 {
        "Aug"@
    } else if m == 9 {
        "Sep"@
    } else if m == 10 {
        "Oct"@
    } else {
        if m == 11 {
            "Nov"@
        } else {
            "Dec"@
        }
    }
}

/// A date at midnight UTC in the RFC 2822 form
/// `Ddd, DD Mon YYYY 00:00:00 +0000`.
pub open spec fn rfc2822_midnight_spec(d: Date) -> Seq<char> {
    weekday_name(weekday_of(d)) + ", "@ + text::pad_zeros(text::dec_rep(d.d as nat), 2) + " "@
        + month_name(d.m as int) + " "@ + text::pad_zeros(text::dec_rep(d.y as nat), 4)
        + " 00:00:00 +0000"@
}

fn weekday_name_exec(w: u64) -> (r: &'static str)
    requires
        w < 7,
    ensures
        r@ == weekday_name(w as int),
{
    match w {
        0 => "Sun",
        1 => "Mon",
        2 => "Tue",
        3 => "Wed",
        4 => "Thu",
        5 => "Fri",
        _ => "Sat",
    }
}

fn month_name_exec(m: u64) -> (r: &'static str)
    requires
        1 <= m <= 12,
    ensures
        r@ == month_name(m as int),
{
    match m {
        1 => "Jan",
        2 => "Feb",
        3 => "Mar",
        4 => "Apr",
        5 => "May",
        6 => "Jun",
        7 => "Jul",
        8 => "Aug",
        9 => "Sep",
        10 => "Oct",
        11 => "Nov",
        _ => "Dec",
    }
}

/// Writes a date at midnight UTC in RFC 2822 form; see
/// [`rfc2822_midnight_spec`].
pub fn rfc2822_midnight(d: &Date) -> (r: String)
    requires
        d.wf(),
    ensures
        r@ == rfc2822_midnight_spec(*d),
{
    let dn = date::day_number_of(d);
    let wd: u64 = (((dn % 7) + 11) % 7) as u64;
    proof {
        assert(wd as int == (date::day_number(d.y as int, d.m as int, d.d as int) + 4) % 7);
    }
    let mut out: Vec<char> = text::chars_of(weekday_name_exec(wd));
    text::push_all(&mut out, &text::chars_of(", "));
    let dd = text::fmt_u64_pad(d.d, 2);
    text::push_all(&mut out, &dd);
    out.push(' ');
    text::push_all(&mut out, &text::chars_of(month_name_exec(d.m)));
    out.push(' ');
    let yy = text::fmt_u64_pad(d.y, 4);
    text::push_all(&mut out, &yy);
    text::push_all(&mut out, &text::chars_of(" 00:00:00 +0000"));
    proof {
        reveal_strlit(" ");
        assert(out@ =~= rfc2822_midnight_spec(*d));
    }
    text::string_of(&out)
}

/// One prepared feed entry.
pub struct FeedEntry {
    pub title: String,
    pub link: String,
    pub description: String,
    pub pub_date: String,
    pub category_kind: String,
    pub category_source: String,
}

/// The entry description:
/// `주최: organizer<br>기간: start ~ end<br>분야: field`, absent fields
/// written as `-`.
pub open spec fn description_spec(n: Notice) -> Seq<char> {
    "주최: "@ + opt_or_dash(n.organizer) + "<br>기간: "@ + opt_or_dash(n.start) + " ~ "@
        + opt_or_dash(n.end) + "<br>분야: "@ + opt_or_dash(n.field)
}

/// The feed label of a kind.
pub open spec fn kind_feed_label(k: Kind) -> Seq<char> {
    match k {
        Kind::Contest => "공모전"@,
        Kind::Activity => "대외활동"@,
    }
}

/// The publication date: the start date at midnight when it parses, else
/// the end date at midnight when it parses, else the caller's fallback.
pub open spec fn pub_date_spec(n: Notice, fallback: Seq<char>) -> Seq<char> {
    match crate::merge::parse_opt(n.start) {
        Some(d) => rfc2822_midnight_spec(d),
        None => match crate::merge::parse_opt(n.end) {
            Some(d) => rfc2822_midnight_spec(d),
            None => fallback,
        },
    }
}

/// Prepares the feed entry of one notice. `fallback_pub_date` stands in
/// when neither date parses; the caller takes it from the clock.
pub fn feed_entry(n: &Notice, fallback_pub_date: &String) -> (r: FeedEntry)
    ensures
        r.title == n.title,
        r.link == n.url,
        r.description@ == description_spec(*n),
        r.pub_date@ == pub_date_spec(*n, fallback_pub_date@),
        r.category_kind@ == kind_feed_label(n.kind),
        r.category_source@ == crate::notice::source_label_spec(n.source),
{
    let mut desc: Vec<char> = text::chars_of("주최: ");
    crate::notice::push_opt_or_dash(&mut desc, &n.organizer);
    text::push_all(&mut desc, &text::chars_of("<br>기간: "));
    crate::notice::push_opt_or_dash(&mut desc, &n.start);
    text::push_all(&mut desc, &text::chars_of(" ~ "));
    crate::notice::push_opt_or_dash(&mut desc, &n.end);
    text::push_all(&mut desc, &text::chars_of("<br>분야: "));
    crate::notice::push_opt_or_dash(&mut desc, &n.field);
    proof {
        assert(desc@ =~= description_spec(*n));
    }
    let start_d = match &n.start {
        Some(s) => date::parse_ymd(&text::chars_of(s.as_str())),
        None => None,
    };
    let end_d = match &n.end {
        Some(s) => date::parse_ymd(&text::chars_of(s.as_str())),
        None => None,
    };
    let pub_date = match start_d {
        Some(d) => rfc2822_midnight(&d),
        None => match end_d {
            Some(d) => rfc2822_midnight(&d),
            None => fallback_pub_date.clone(),
        },
    };
    let kind_label = match &n.kind {
        Kind::Contest => "공모전",
        Kind::Activity => "대외활동",
    };
    FeedEntry {
        title: n.title.clone(),
        link: n.url.clone(),
        description: text::string_of(&desc),
        pub_date,
        category_kind: kind_label.to_owned(),
        category_source: crate::notice::source_label(&n.source).to_owned(),
    }
}

/// Prepares feed entries for a whole collection, in order.
pub fn feed_entries(notices: &Vec<Notice>, fallback_pub_date: &String) -> (r: Vec<FeedEntry>)
    ensures
        r@.len() == notices@.len(),
        forall|i: int|
            0 <= i < r@.len() ==> {
                &&& (#[trigger] r@[i]).title == notices@[i].title
                &&& r@[i].link == notices@[i].url
                &&& r@[i].description@ == description_spec(notices@[i])
                &&& r@[i].pub_date@ == pub_date_spec(notices@[i], fallback_pub_date@)
                &&& r@[i].category_kind@ == kind_feed_label(notices@[i].kind)
                &&& r@[i].category_source@ == crate::notice::source_label_spec(notices@[i].source)
            },
{
    let mut r: Vec<FeedEntry> = Vec::new();
    let mut i: usize = 0;
    while i < notices.len()
        invariant
            i <= notices@.len(),
            r@.len() == i,
            forall|k: int|
                0 <= k < i ==> {
                    &&& (#[trigger] r@[k]).title == notices@[k].title
                    &&& r@[k].link == notices@[k].url
                    &&& r@[k].description@ == description_spec(notices@[k])
                    &&& r@[k].pub_date@ == pub_date_spec(notices@[k], fallback_pub_date@)
                    &&& r@[k].category_kind@ == kind_feed_label(notices@[k].kind)
                    &&& r@[k].category_source@ == crate::notice::source_label_spec(
                        notices@[k].source,
                    )
                },
        decreases notices@.len() - i,
    {
        r.push(feed_entry(&notices[i], fallback_pub_date));
        i += 1;
    }
    r
}

} // verus!
