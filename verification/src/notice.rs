//! The canonical normalized record every source adapter produces.

use vstd::prelude::*;
use crate::date;
use crate::text;

verus! {

/// The web source a notice was crawled from.
#[derive(Clone, Copy, Debug, PartialEq, Eq, Structural)]
pub enum Source {
    Wevity,
    Dacon,
    Campuspick,
}

/// The kind of opportunity a notice announces.
#[derive(Clone, Copy, Debug, PartialEq, Eq, Structural)]
pub enum Kind {
    Contest,
    Activity,
}

/// One normalized contest or activity record.
///
/// `title` and `url` are never empty; `start` and `end`, when present, hold
/// a literal `YYYY-MM-DD` date.
#[derive(Clone, Debug, PartialEq)]
pub struct Notice {
    pub source: Source,
    pub kind: Kind,
    pub title: String,
    pub url: String,
    pub start: Option<String>,
    pub end: Option<String>,
    pub organizer: Option<String>,
    pub field: Option<String>,
}

/// A date field is either absent or a valid literal `YYYY-MM-DD` date.
pub open spec fn date_field_wf(o: Option<String>) -> bool {
    match o {
        Some(s) => date::parse_ymd_spec(s@) is Some,
        None => true,
    }
}

impl Notice {
    /// The record invariant: non-empty title and url, normalized dates.
    pub open spec fn wf(self) -> bool {
        &&& self.title@.len() > 0
        &&& self.url@.len() > 0
        &&& date_field_wf(self.start)
        &&& date_field_wf(self.end)
    }
}

/// The ranking position of a kind: contests sort before activities.
pub open spec fn kind_rank_spec(k: Kind) -> int {
    match k {
        Kind::Contest => 0,
        Kind::Activity => 1,
    }
}

/// The ranking position of a kind; see [`kind_rank_spec`].
pub fn kind_rank(k: &Kind) -> (r: u8)
    ensures
        r as int == kind_rank_spec(*k),
{
    match k {
        Kind::Contest => 0,
        Kind::Activity => 1,
    }
}

/// The kind named by a label: an activity marker wins over a contest
/// marker, and a label naming neither keeps the default. `low` is the
/// lowercased trimmed label.
pub open spec fn infer_kind_spec(low: Seq<char>, default: Kind) -> Kind {
    if text::contains_seq(low, "활동"@) || text::contains_seq(low, "activity"@) {
        Kind::Activity
    } else if text::contains_seq(low, "공모"@) || text::contains_seq(low, "contest"@)
        || text::contains_seq(low, "competition"@) {
        Kind::Contest
    } else {
        default
    }
}

/// Infers the kind from a free-form label, falling back to `default`.
pub fn infer_kind_from_label(label: &str, default: Kind) -> (r: Kind)
    ensures
        r == infer_kind_spec(text::lower_of(text::trim_spec(label@)), default),
{
    let t = text::trim_chars(&text::chars_of(label));
    let lows = text::lowercase(text::string_of(&t).as_str());
    let low = text::chars_of(lows.as_str());
    if text::contains_sub(&low, &text::chars_of("활동")) || text::contains_sub(
        &low,
        &text::chars_of("activity"),
    ) {
        Kind::Activity
    } else if text::contains_sub(&low, &text::chars_of("공모")) || text::contains_sub(
        &low,
        &text::chars_of("contest"),
    ) || text::contains_sub(&low, &text::chars_of("competition")) {
        Kind::Contest
    } else {
        default
    }
}

/// The display name of a source.
pub open spec fn source_label_spec(s: Source) -> Seq<char> {
    match s {
        Source::Wevity => "Wevity"@,
        Source::Dacon => "Dacon"@,
        Source::Campuspick => "Campuspick"@,
    }
}

/// The display name of a source.
pub fn source_label(s: &Source) -> (r: &'static str)
    ensures
        r@ == source_label_spec(*s),
{
    match s {
        Source::Wevity => "Wevity",
        Source::Dacon => "Dacon",
        Source::Campuspick => "Campuspick",
    }
}

/// The display name of a kind.
pub open spec fn kind_label_spec(k: Kind) -> Seq<char> {
    match k {
        Kind::Contest => "Contest"@,
        Kind::Activity => "Activity"@,
    }
}

/// The display name of a kind.
pub fn kind_label(k: &Kind) -> (r: &'static str)
    ensures
        r@ == kind_label_spec(*k),
{
    match k {
        Kind::Contest => "Contest",
        Kind::Activity => "Activity",
    }
}

/// An optional field, with `-` standing for an absent value.
pub open spec fn opt_or_dash(o: Option<String>) -> Seq<char> {
    match o {
        Some(s) => s@,
        None => "-"@,
    }
}

/// The one-line preview of a notice:
/// `[Source/Kind] title | organizer | start ~ end | url`, with ` | field`
/// appended when a field text is present and not `-`.
pub open spec fn display_line_spec(n: Notice) -> Seq<char> {
    let head = "["@ + source_label_spec(n.source) + "/"@ + kind_label_spec(n.kind) + "] "@
        + n.title@ + " | "@ + opt_or_dash(n.organizer) + " | "@ + opt_or_dash(n.start) + " ~ "@
        + opt_or_dash(n.end) + " | "@ + n.url@;
    if opt_or_dash(n.field).len() > 0 && opt_or_dash(n.field) != "-"@ {
        head + " | "@ + opt_or_dash(n.field)
    } else {
        head
    }
}

/// Appends an optional field, `-` standing for an absent value.
pub fn push_opt_or_dash(out: &mut Vec<char>, o: &Option<String>)
    ensures
        final(out)@ == old(out)@ + opt_or_dash(*o),
{
    match o {
        Some(s) => {
            let cs = text::chars_of(s.as_str());
            text::push_all(out, &cs);
        },
        None => {
            text::push_all(out, &text::chars_of("-"));
        },
    }
}

/// A copy of an optional string, equal to the original.
pub fn clone_opt_string(o: &Option<String>) -> (r: Option<String>)
    ensures
        r == *o,
{
    match o {
        Some(s) => Some(s.clone()),
        None => None,
    }
}

impl Notice {
    /// A copy of this notice, equal to it.
    pub fn duplicate(&self) -> (r: Notice)
        ensures
            r == *self,
    {
        Notice {
            source: self.source,
            kind: self.kind,
            title: self.title.clone(),
            url: self.url.clone(),
            start: clone_opt_string(&self.start),
            end: clone_opt_string(&self.end),
            organizer: clone_opt_string(&self.organizer),
            field: clone_opt_string(&self.field),
        }
    }

    /// The one-line preview of this notice; see [`display_line_spec`].
    pub fn display_line(&self) -> (r: String)
        ensures
            r@ == display_line_spec(*self),
    {
        let mut out: Vec<char> = Vec::new();
        text::push_all(&mut out, &text::chars_of("["));
        text::push_all(&mut out, &text::chars_of(source_label(&self.source)));
        text::push_all(&mut out, &text::chars_of("/"));
        text::push_all(&mut out, &text::chars_of(kind_label(&self.kind)));
        text::push_all(&mut out, &text::chars_of("] "));
        text::push_all(&mut out, &text::chars_of(self.title.as_str()));
        text::push_all(&mut out, &text::chars_of(" | "));
        push_opt_or_dash(&mut out, &self.organizer);
        text::push_all(&mut out, &text::chars_of(" | "));
        push_opt_or_dash(&mut out, &self.start);
        text::push_all(&mut out, &text::chars_of(" ~ "));
        push_opt_or_dash(&mut out, &self.end);
        text::push_all(&mut out, &text::chars_of(" | "));
        text::push_all(&mut out, &text::chars_of(self.url.as_str()));
        let field_txt = match &self.field {
            Some(s) => text::chars_of(s.as_str()),
            None => text::chars_of("-"),
        };
        let dash = text::chars_of("-");
        if field_txt.len() > 0 && !text::seq_eq(&field_txt, &dash) {
            text::push_all(&mut out, &text::chars_of(" | "));
            text::push_all(&mut out, &field_txt);
        }
        proof {
            assert(out@ =~= display_line_spec(*self));
        }
        text::string_of(&out)
    }
}

} // verus!
