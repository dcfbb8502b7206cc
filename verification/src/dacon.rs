//! The dacon source adapter: competition-list payload decoding, keyword
//! and deadline filters, and normalization into the shared schema.

use vstd::prelude::*;
use crate::date;
use crate::date::Date;
use crate::json::Json;
use crate::json;
use crate::notice::{Notice, Source, Kind};
use crate::text;

verus! {

/// One competition item of the listing payload.
#[derive(Clone, Debug, PartialEq)]
pub struct Item {
    pub cpt_id: i64,
    pub name: String,
    pub name_eng: String,
    pub keyword: String,
    pub keyword_eng: String,
    pub period_start: String,
    pub period_end: String,
}

/// Why a listing payload yields no items.
#[derive(Clone, Copy, Debug, PartialEq, Eq, Structural)]
pub enum ParseItemsError {
    /// The body is not a JSON document.
    NotJson,
    /// The document holds no recognizable item array.
    UnsupportedShape,
}

/// The string under `key` in an item object, empty when absent or not a
/// string.
pub open spec fn field_str(j: Json, key: Seq<char>) -> Seq<char> {
    match crate::extract::get_str(j, key) {
        Some(s) => s,
        None => Seq::empty(),
    }
}

/// The number under `key` in an item object, zero when absent or not a
/// number.
pub open spec fn field_num(j: Json, key: Seq<char>) -> int {
    match json::get_spec(j, key) {
        Some(x) => match json::as_num_spec(x) {
            Some(n) => n as int,
            None => 0,
        },
        None => 0,
    }
}

/// The item read from one decodable object: absent fields default.
pub open spec fn item_spec(j: Json) -> (int, Seq<char>, Seq<char>, Seq<char>, Seq<char>, Seq<
    char,
>, Seq<char>) {
    (
        field_num(j, "cpt_id"@),
        field_str(j, "name"@),
        field_str(j, "name_eng"@),
        field_str(j, "keyword"@),
        field_str(j, "keyword_eng"@),
        field_str(j, "period_start"@),
        field_str(j, "period_end"@),
    )
}

/// An item matches its spec-level image.
pub open spec fn item_matches(it: Item, g: (int, Seq<char>, Seq<char>, Seq<char>, Seq<char>, Seq<
    char,
>, Seq<char>)) -> bool {
    &&& it.cpt_id as int == g.0
    &&& it.name@ == g.1
    &&& it.name_eng@ == g.2
    &&& it.keyword@ == g.3
    &&& it.keyword_eng@ == g.4
    &&& it.period_start@ == g.5
    &&& it.period_end@ == g.6
}

/// The value under `key` is a string whenever the key is present.
pub open spec fn str_field_ok(j: Json, key: Seq<char>) -> bool {
    match json::get_spec(j, key) {
        Some(x) => x is Str,
        None => true,
    }
}

/// The value under `key` is a number whenever the key is present.
pub open spec fn num_field_ok(j: Json, key: Seq<char>) -> bool {
    match json::get_spec(j, key) {
        Some(x) => x is Num,
        None => true,
    }
}

/// The element decodes as an item: an object whose known fields, when
/// present, carry the expected types. An element that does not decode is
/// dropped from a discovered array and fails a top-level one.
pub open spec fn item_ok(j: Json) -> bool {
    &&& j is Obj
    &&& num_field_ok(j, "cpt_id"@)
    &&& str_field_ok(j, "name"@)
    &&& str_field_ok(j, "name_eng"@)
    &&& str_field_ok(j, "keyword"@)
    &&& str_field_ok(j, "keyword_eng"@)
    &&& str_field_ok(j, "period_start"@)
    &&& str_field_ok(j, "period_end"@)
}

fn str_ok_exec(j: &Json, key: &str) -> (r: bool)
    ensures
        r == str_field_ok(*j, key@),
{
    let kc = text::chars_of(key);
    match json::json_get(j, &kc) {
        Some(x) => match x {
            Json::Str(_) => true,
            _ => false,
        },
        None => true,
    }
}

fn num_ok_exec(j: &Json, key: &str) -> (r: bool)
    ensures
        r == num_field_ok(*j, key@),
{
    let kc = text::chars_of(key);
    match json::json_get(j, &kc) {
        Some(x) => match x {
            Json::Num(_) => true,
            _ => false,
        },
        None => true,
    }
}

/// Whether an element decodes as an item; see [`item_ok`].
pub fn item_ok_exec(j: &Json) -> (r: bool)
    ensures
        r == item_ok(*j),
{
    let is_obj = match j {
        Json::Obj(_) => true,
        _ => false,
    };
    is_obj && num_ok_exec(j, "cpt_id") && str_ok_exec(j, "name") && str_ok_exec(j, "name_eng")
        && str_ok_exec(j, "keyword") && str_ok_exec(j, "keyword_eng") && str_ok_exec(
        j,
        "period_start",
    ) && str_ok_exec(j, "period_end")
}

fn field_str_exec(j: &Json, key: &str) -> (r: String)
    ensures
        r@ == field_str(*j, key@),
{
    let kc = text::chars_of(key);
    match json::json_get(j, &kc) {
        Some(x) => match json::json_as_str(x) {
            Some(s) => s.clone(),
            None => String::new(),
        },
        None => String::new(),
    }
}

fn field_num_exec(j: &Json, key: &str) -> (r: i64)
    ensures
        r as int == field_num(*j, key@),
{
    let kc = text::chars_of(key);
    match json::json_get(j, &kc) {
        Some(x) => match json::json_as_num(x) {
            Some(n) => n,
            None => 0,
        },
        None => 0,
    }
}

/// Reads one element as an item when it decodes; see [`item_ok`] and
/// [`item_spec`].
pub fn item_from_json(j: &Json) -> (r: Option<Item>)
    ensures
        match r {
            Some(it) => item_ok(*j) && item_matches(it, item_spec(*j)),
            None => !item_ok(*j),
        },
{
    if !item_ok_exec(j) {
        return None;
    }
    Some(
        Item {
            cpt_id: field_num_exec(j, "cpt_id"),
            name: field_str_exec(j, "name"),
            name_eng: field_str_exec(j, "name_eng"),
            keyword: field_str_exec(j, "keyword"),
            keyword_eng: field_str_exec(j, "keyword_eng"),
            period_start: field_str_exec(j, "period_start"),
            period_end: field_str_exec(j, "period_end"),
        },
    )
}

/// The items read from the elements of an array: decodable elements only,
/// the rest dropped.
pub open spec fn items_of_array(v: Seq<Json>) -> Seq<
    (int, Seq<char>, Seq<char>, Seq<char>, Seq<char>, Seq<char>, Seq<char>),
>
    decreases v.len(),
{
    if v.len() == 0 {
        Seq::empty()
    } else {
        (if item_ok(v[0]) {
            seq![item_spec(v[0])]
        } else {
            Seq::empty()
        }) + items_of_array(v.drop_first())
    }
}

/// Every element of a top-level listing array decodes as an item.
pub open spec fn all_items_ok(v: Seq<Json>) -> bool {
    forall|i: int| 0 <= i < v.len() ==> item_ok(v[i])
}

/// The keys under which this endpoint may wrap its item array.
pub open spec fn dacon_wrapper_keys() -> Seq<Seq<char>> {
    seq!["list"@, "data"@, "content"@, "items"@, "results"@]
}

/// The first wrapper key from `ki` on whose value is an array.
pub open spec fn dacon_wrapped(j: Json, ki: int) -> Option<Seq<Json>>
    decreases dacon_wrapper_keys().len() - ki when 0 <= ki <= dacon_wrapper_keys().len()
{
    if ki >= dacon_wrapper_keys().len() {
        None
    } else {
        match json::get_spec(j, dacon_wrapper_keys()[ki]) {
            Some(Json::Arr(v)) => Some(v@),
            _ => dacon_wrapped(j, ki + 1),
        }
    }
}

/// Every element of the array is an object.
pub open spec fn all_objects(v: Seq<Json>) -> bool {
    forall|i: int| 0 <= i < v.len() ==> v[i] is Obj
}

/// The first object field from `fi` on whose value is an all-object array.
pub open spec fn first_obj_array(fs: Seq<(String, Json)>, fi: int) -> Option<Seq<Json>>
    decreases fs.len() - fi when 0 <= fi <= fs.len()
{
    if fi >= fs.len() {
        None
    } else {
        match fs[fi].1 {
            Json::Arr(v) => if all_objects(v@) {
                Some(v@)
            } else {
                first_obj_array(fs, fi + 1)
            },
            _ => first_obj_array(fs, fi + 1),
        }
    }
}

/// What decoding a listing body yields. A top-level array must decode
/// element for element, or the page is abandoned; an array found under a
/// wrapper key, or as the first all-object field value, drops the elements
/// that do not decode.
pub open spec fn parse_items_spec(body: Seq<char>) -> Result<
    Seq<(int, Seq<char>, Seq<char>, Seq<char>, Seq<char>, Seq<char>, Seq<char>)>,
    ParseItemsError,
> {
    match json::json_of(body) {
        Some(j) => match j {
            Json::Arr(v) => if all_items_ok(v@) {
                Ok(items_of_array(v@))
            } else {
                Err(ParseItemsError::UnsupportedShape)
            },
            Json::Obj(fs) => match dacon_wrapped(j, 0) {
                Some(v) => Ok(items_of_array(v)),
                None => match first_obj_array(fs@, 0) {
                    Some(v) => Ok(items_of_array(v)),
                    None => Err(ParseItemsError::UnsupportedShape),
                },
            },
            _ => Err(ParseItemsError::UnsupportedShape),
        },
        None => Err(ParseItemsError::NotJson),
    }
}

fn dacon_wrapper_key(i: usize) -> (k: &'static str)
    requires
        i < 5,
    ensures
        k@ == dacon_wrapper_keys()[i as int],
{
    match i {
        0 => "list",
        1 => "data",
        2 => "content",
        3 => "items",
        _ => "results",
    }
}

fn items_of_array_exec(v: &Vec<Json>) -> (r: Vec<Item>)
    ensures
        r@.len() == items_of_array(v@).len(),
        forall|k: int|
            0 <= k < r@.len() ==> item_matches(#[trigger] r@[k], items_of_array(v@)[k]),
{
    let ghost target = items_of_array(v@);
    let mut r: Vec<Item> = Vec::new();
    let mut i: usize = 0;
    proof {
        assert(v@.skip(0) =~= v@);
    }
    while i < v.len()
        invariant
            i <= v@.len(),
            target == items_of_array(v@),
            items_of_array(v@).len() == r@.len() + items_of_array(v@.skip(i as int)).len(),
            forall|k: int|
                0 <= k < r@.len() ==> item_matches(#[trigger] r@[k], items_of_array(v@)[k]),
            forall|k: int|
                0 <= k < items_of_array(v@.skip(i as int)).len() ==> items_of_array(
                    v@.skip(i as int),
                )[k] == items_of_array(v@)[r@.len() + k],
        decreases v@.len() - i,
    {
        proof {
            assert(v@.skip(i as int)[0] == v@[i as int]);
            assert(v@.skip(i as int).drop_first() =~= v@.skip(i as int + 1));
        }
        let ghost cur = items_of_array(v@.skip(i as int));
        let ghost nxt = items_of_array(v@.skip(i as int + 1));
        if let Some(it) = item_from_json(&v[i]) {
            let ghost prev = r@;
            r.push(it);
            proof {
                assert(cur == seq![item_spec(v@[i as int])] + nxt);
                assert(cur[0] == item_spec(v@[i as int]));
                assert(item_matches(r@[prev.len() as int], items_of_array(v@)[prev.len() as int]));
                assert forall|k: int| 0 <= k < nxt.len() implies nxt[k] == items_of_array(
                    v@,
                )[r@.len() + k] by {
                    assert(cur[k + 1] == nxt[k]);
                }
            }
        } else {
            proof {
                assert(cur =~= Seq::<
                    (int, Seq<char>, Seq<char>, Seq<char>, Seq<char>, Seq<char>, Seq<char>),
                >::empty() + nxt);
                assert(cur =~= nxt);
            }
        }
        i += 1;
    }
    proof {
        assert(items_of_array(v@.skip(i as int)).len() == 0);
    }
    r
}

/// Decodes a listing body into items; see [`parse_items_spec`].
pub fn parse_items(body: &str) -> (r: Result<Vec<Item>, ParseItemsError>)
    ensures
        match (r, parse_items_spec(body@)) {
            (Ok(items), Ok(g)) => items@.len() == g.len() && forall|k: int|
                0 <= k < g.len() ==> item_matches(#[trigger] items@[k], g[k]),
            (Err(e1), Err(e2)) => e1 == e2,
            _ => false,
        },
{
    let tree = match json::parse_json(body) {
        Some(t) => t,
        None => {
            return Err(ParseItemsError::NotJson);
        },
    };
    if let Json::Arr(v) = &tree {
        let mut ok = true;
        let mut k: usize = 0;
        while k < v.len()
            invariant
                k <= v@.len(),
                json::json_of(body@) == Some(tree),
                tree == Json::Arr(*v),
                ok == (forall|m: int| 0 <= m < k ==> item_ok(v@[m])),
            decreases v@.len() - k,
        {
            if !item_ok_exec(&v[k]) {
                ok = false;
            }
            proof {
                if ok {
                    assert forall|m: int| 0 <= m < k + 1 implies item_ok(v@[m]) by {}
                }
            }
            k += 1;
        }
        if ok {
            proof {
                assert(all_items_ok(v@));
            }
            return Ok(items_of_array_exec(v));
        }
        return Err(ParseItemsError::UnsupportedShape);
    }
    if let Json::Obj(fs) = &tree {
        let mut ki: usize = 0;
        while ki < 5
            invariant
                ki <= 5,
                json::json_of(body@) == Some(tree),
                tree is Obj,
                dacon_wrapped(tree, 0) == dacon_wrapped(tree, ki as int),
            decreases 5 - ki,
        {
            let key = text::chars_of(dacon_wrapper_key(ki));
            if let Some(val) = json::json_get(&tree, &key) {
                if let Json::Arr(v) = val {
                    return Ok(items_of_array_exec(v));
                }
            }
            ki += 1;
        }
        let mut fi: usize = 0;
        proof {
            assert(fs@.skip(0) =~= fs@);
        }
        while fi < fs.len()
            invariant
                fi <= fs@.len(),
                json::json_of(body@) == Some(tree),
                tree == Json::Obj(*fs),
                dacon_wrapped(tree, 0) is None,
                first_obj_array(fs@, 0) == first_obj_array(fs@, fi as int),
            decreases fs@.len() - fi,
        {
            if let Json::Arr(v) = &fs[fi].1 {
                let mut all_obj = true;
                let mut k: usize = 0;
                while k < v.len()
                    invariant
                        k <= v@.len(),
                        all_obj == forall|m: int| 0 <= m < k ==> v@[m] is Obj,
                    decreases v@.len() - k,
                {
                    let is_obj = match &v[k] {
                        Json::Obj(_) => true,
                        _ => false,
                    };
                    if !is_obj {
                        all_obj = false;
                    }
                    proof {
                        if all_obj {
                            assert forall|m: int| 0 <= m < k + 1 implies v@[m] is Obj by {}
                        }
                    }
                    k += 1;
                }
                if all_obj {
                    proof {
                        assert(all_objects(v@));
                        assert(first_obj_array(fs@, fi as int) == Some(v@));
                    }
                    return Ok(items_of_array_exec(v));
                }
            }
            fi += 1;
        }
        return Err(ParseItemsError::UnsupportedShape);
    }
    Err(ParseItemsError::UnsupportedShape)
}

/// The lowercased competition keywords.
pub open spec fn dacon_keywords() -> Seq<Seq<char>> {
    seq![
        "ai"@,
        "인공지능"@,
        "머신러닝"@,
        "딥러닝"@,
        "개발"@,
        "developer"@,
        "dev"@,
        "보안"@,
        "security"@,
        "sw"@,
        "소프트웨어"@,
        "software"@,
    ]
}

/// The searched text of an item: its names and keywords joined by spaces,
/// lowercased and whitespace-normalized.
pub open spec fn item_hay(it: Item) -> Seq<char> {
    text::norm_ws(
        text::lower_of(
            it.name@ + " "@ + it.name_eng@ + " "@ + it.keyword@ + " "@ + it.keyword_eng@,
        ),
    )
}

/// The item names one of the competition keywords, compared after both
/// sides are lowercased and whitespace-normalized.
pub open spec fn keyword_hit(it: Item) -> bool {
    exists|k: int|
        0 <= k < dacon_keywords().len() && text::contains_seq(
            item_hay(it),
            text::norm_ws(text::lower_of(dacon_keywords()[k])),
        )
}

fn dacon_keyword(i: usize) -> (k: &'static str)
    requires
        i < 12,
    ensures
        k@ == dacon_keywords()[i as int],
{
    match i {
        0 => "ai",
        1 => "인공지능",
        2 => "머신러닝",
        3 => "딥러닝",
        4 => "개발",
        5 => "developer",
        6 => "dev",
        7 => "보안",
        8 => "security",
        9 => "sw",
        10 => "소프트웨어",
        11 => "software",
        _ => "",
    }
}

/// Whether an item passes the keyword filter; see [`keyword_hit`].
pub fn pass_keyword_filter(it: &Item) -> (r: bool)
    ensures
        r == keyword_hit(*it),
{
    let mut joined = text::chars_of(it.name.as_str());
    text::push_all(&mut joined, &text::chars_of(" "));
    text::push_all(&mut joined, &text::chars_of(it.name_eng.as_str()));
    text::push_all(&mut joined, &text::chars_of(" "));
    text::push_all(&mut joined, &text::chars_of(it.keyword.as_str()));
    text::push_all(&mut joined, &text::chars_of(" "));
    text::push_all(&mut joined, &text::chars_of(it.keyword_eng.as_str()));
    proof {
        assert(joined@ =~= it.name@ + " "@ + it.name_eng@ + " "@ + it.keyword@ + " "@
            + it.keyword_eng@);
    }
    let low = text::lowercase(text::string_of(&joined).as_str());
    let hay = text::collapse_ws(&text::chars_of(low.as_str()));
    let mut k: usize = 0;
    while k < 12
        invariant
            hay@ == item_hay(*it),
            k <= 12,
            forall|m: int|
                0 <= m < k ==> !text::contains_seq(
                    hay@,
                    text::norm_ws(text::lower_of(dacon_keywords()[m])),
                ),
        decreases 12 - k,
    {
        let kwl = text::lowercase(dacon_keyword(k));
        let kw = text::collapse_ws(&text::chars_of(kwl.as_str()));
        if text::contains_sub(&hay, &kw) {
            return true;
        }
        k += 1;
    }
    false
}

/// The deadline of an item: the date written at the head of its period-end
/// field.
pub open spec fn item_deadline(it: Item) -> Option<Date> {
    date::parse_ymd_prefix_spec(it.period_end@)
}

/// The deadline of an item; see [`item_deadline`].
pub fn parse_date_ymd(s: &str) -> (r: Option<Date>)
    ensures
        r == date::parse_ymd_prefix_spec(s@),
{
    let cs = text::chars_of(s);
    date::parse_ymd_prefix(&cs)
}

/// Days until an item's deadline, from `today`.
pub fn days_until_deadline(end_str: &str, today: &Date) -> (r: Option<i64>)
    requires
        today.wf(),
    ensures
        match (r, date::parse_ymd_prefix_spec(end_str@)) {
            (Some(d), Some(e)) => d as int == date::day_number(
                e.y as int,
                e.m as int,
                e.d as int,
            ) - date::day_number(today.y as int, today.m as int, today.d as int),
            (None, None) => true,
            _ => false,
        },
{
    match parse_date_ymd(end_str) {
        Some(e) => Some(date::days_until(&e, today)),
        None => None,
    }
}

/// The item's deadline parses and lies inside the window of `n` days from
/// `today`.
pub open spec fn within_window_spec(it: Item, today: Date, n: int) -> bool {
    match item_deadline(it) {
        Some(e) => date::in_window(e, today, n),
        None => false,
    }
}

/// Whether an item's deadline lies inside the window; see
/// [`within_window_spec`].
pub fn within_deadline_days(it: &Item, n: i64, today: &Date) -> (r: bool)
    requires
        today.wf(),
    ensures
        r == within_window_spec(*it, *today, n as int),
{
    match parse_date_ymd(it.period_end.as_str()) {
        Some(e) => date::in_window_exec(&e, today, n),
        None => false,
    }
}

/// The competition URL of an item.
pub open spec fn dacon_url_spec(cpt_id: int) -> Seq<char> {
    "https://dacon.io/competitions/official/"@ + text::dec_rep_i(cpt_id)
}

/// Normalizes a dacon item into the shared schema: always a contest, the
/// title trimmed, the URL built from the competition id, and each period
/// edge kept only when its first ten characters name a valid date, as that
/// literal `YYYY-MM-DD` prefix.
pub fn to_notice_from_dacon(it: &Item) -> (n: Notice)
    requires
        text::trim_spec(it.name@).len() > 0,
    ensures
        n.source == Source::Dacon,
        n.kind == Kind::Contest,
        n.title@ == text::trim_spec(it.name@),
        n.url@ == dacon_url_spec(it.cpt_id as int),
        (match (n.start, date::parse_ymd_prefix_spec(it.period_start@)) {
            (Some(s), Some(_)) => s@ == it.period_start@.subrange(0, 10),
            (None, None) => true,
            _ => false,
        }),
        (match (n.end, date::parse_ymd_prefix_spec(it.period_end@)) {
            (Some(s), Some(_)) => s@ == it.period_end@.subrange(0, 10),
            (None, None) => true,
            _ => false,
        }),
        n.organizer is None,
        n.field is None,
        n.wf(),
{
    let title_c = text::trim_chars(&text::chars_of(it.name.as_str()));
    let mut url_c = text::chars_of("https://dacon.io/competitions/official/");
    let idc = text::fmt_i64(it.cpt_id);
    text::push_all(&mut url_c, &idc);
    proof {
        reveal_strlit("https://dacon.io/competitions/official/");
        assert(url_c@ =~= dacon_url_spec(it.cpt_id as int));
        assert(url_c@.len() > 0);
    }
    let ps = text::chars_of(it.period_start.as_str());
    let start = match date::parse_ymd_prefix(&ps) {
        Some(_) => {
            let pre = text::copy_range(&ps, 0, 10);
            Some(text::string_of(&pre))
        },
        None => None,
    };
    let pe = text::chars_of(it.period_end.as_str());
    let end = match date::parse_ymd_prefix(&pe) {
        Some(_) => {
            let pre = text::copy_range(&pe, 0, 10);
            Some(text::string_of(&pre))
        },
        None => None,
    };
    proof {
        if date::parse_ymd_prefix_spec(ps@) is Some {
            assert(date::parse_ymd_spec(ps@.subrange(0, 10)) is Some) by {
                assert(ps@.subrange(0, 10).len() == 10);
                lemma_prefix_shape(ps@);
            }
        }
        if date::parse_ymd_prefix_spec(pe@) is Some {
            assert(date::parse_ymd_spec(pe@.subrange(0, 10)) is Some) by {
                assert(pe@.subrange(0, 10).len() == 10);
                lemma_prefix_shape(pe@);
            }
        }
    }
    Notice {
        source: Source::Dacon,
        kind: Kind::Contest,
        title: text::string_of(&title_c),
        url: text::string_of(&url_c),
        start,
        end,
        organizer: None,
        field: None,
    }
}

proof fn lemma_prefix_shape(s: Seq<char>)
    requires
        date::parse_ymd_prefix_spec(s) is Some,
    ensures
        date::parse_ymd_spec(s.subrange(0, 10)) == date::parse_ymd_prefix_spec(s),
{
    let p = s.subrange(0, 10);
    assert(p.len() == 10);
    assert(date::ymd_shape(s));
    assert forall|k: int| 0 <= k < 10 implies p[k] == s[k] by {}
    assert(date::ymd_shape(p));
    assert(date::ymd_year(p) == date::ymd_year(s));
    assert(date::ymd_month(p) == date::ymd_month(s));
    assert(date::ymd_day(p) == date::ymd_day(s));
}

} // verus!
