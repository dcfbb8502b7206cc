//! A transparent JSON tree model.
//!
//! Structured payloads are parsed by `serde_json` behind a trusted wrapper
//! and handed to the library as this tree, so that every probe the pipeline
//! makes into a payload is verified logic. Numbers outside `i64` and
//! non-integer numbers are outside the model and read as `Null`.

use vstd::prelude::*;
use crate::text;

verus! {

/// A JSON document: the value model all structured extraction works on.
pub enum Json {
    Null,
    Bool(bool),
    Num(i64),
    Str(String),
    Arr(Vec<Json>),
    Obj(Vec<(String, Json)>),
}

#[verifier::external_type_specification]
#[verifier::external_body]
pub struct ExValue(serde_json::Value);

/// A name for what `serde_json::from_str` yields on a text, mapped onto the
/// library's tree: the result depends on the characters alone.
pub uninterp spec fn json_of(s: Seq<char>) -> Option<Json>;

/// Relies on `serde_json::Value`: each variant of the parsed tree is moved
/// to the corresponding variant of the library's tree; object fields keep
/// the order in which `serde_json` iterates them, and a number that is not
/// an `i64` reads as `Null`.
#[verifier::external_body]
fn tree_of_value(v: &serde_json::Value) -> Json {
    match v {
        serde_json::Value::Null => Json::Null,
        serde_json::Value::Bool(b) => Json::Bool(*b),
        serde_json::Value::Number(n) => n.as_i64().map(Json::Num).unwrap_or(Json::Null),
        serde_json::Value::String(s) => Json::Str(s.clone()),
        serde_json::Value::Array(a) => Json::Arr(a.iter().map(tree_of_value).collect()),
        serde_json::Value::Object(m) => Json::Obj(
            m.iter().map(|(k, val)| (k.clone(), tree_of_value(val))).collect(),
        ),
    }
}

/// Relies on `serde_json::from_str::<Value>`, which parses a JSON document
/// deterministically from the text alone; `None` when the text is not JSON.
#[verifier::external_body]
pub fn parse_json(s: &str) -> (r: Option<Json>)
    ensures
        r == json_of(s@),
{
    match serde_json::from_str::<serde_json::Value>(s) {
        Ok(v) => Some(tree_of_value(&v)),
        Err(_) => None,
    }
}

/// The first value bound to `key` in a field list.
pub open spec fn fields_get(fs: Seq<(String, Json)>, key: Seq<char>) -> Option<Json>
    decreases fs.len(),
{
    if fs.len() == 0 {
        None
    } else if fs[0].0@ == key {
        Some(fs[0].1)
    } else {
        fields_get(fs.drop_first(), key)
    }
}

/// The value bound to `key` when `j` is an object that holds the key.
pub open spec fn get_spec(j: Json, key: Seq<char>) -> Option<Json> {
    match j {
        Json::Obj(fs) => fields_get(fs@, key),
        _ => None,
    }
}

/// Looks up `key` in an object.
pub fn json_get<'a>(j: &'a Json, key: &Vec<char>) -> (r: Option<&'a Json>)
    ensures
        match r {
            Some(v) => get_spec(*j, key@) == Some(*v),
            None => get_spec(*j, key@) is None,
        },
{
    match j {
        Json::Obj(fs) => {
            let mut i: usize = 0;
            proof {
                assert(fs@.skip(0) =~= fs@);
            }
            while i < fs.len()
                invariant
                    i <= fs@.len(),
                    get_spec(*j, key@) == fields_get(fs@, key@),
                    fields_get(fs@, key@) == fields_get(fs@.skip(i as int), key@),
                decreases fs@.len() - i,
            {
                let name = text::chars_of(fs[i].0.as_str());
                proof {
                    assert(fs@.skip(i as int)[0] == fs@[i as int]);
                }
                if text::seq_eq(&name, key) {
                    let out = &fs[i].1;
                    proof {
                        assert(fields_get(fs@.skip(i as int), key@) == Some(fs@[i as int].1));
                    }
                    return Some(out);
                }
                proof {
                    assert(fs@.skip(i as int).drop_first() =~= fs@.skip(i as int + 1));
                }
                i += 1;
            }
            None
        },
        _ => None,
    }
}

/// The string content when `j` is a string.
pub open spec fn as_str_spec(j: Json) -> Option<Seq<char>> {
    match j {
        Json::Str(s) => Some(s@),
        _ => None,
    }
}

/// The string content when `j` is a string.
pub fn json_as_str<'a>(j: &'a Json) -> (r: Option<&'a String>)
    ensures
        match r {
            Some(s) => as_str_spec(*j) == Some(s@),
            None => as_str_spec(*j) is None,
        },
{
    match j {
        Json::Str(s) => Some(s),
        _ => None,
    }
}

/// The integer content when `j` is a number.
pub open spec fn as_num_spec(j: Json) -> Option<i64> {
    match j {
        Json::Num(n) => Some(n),
        _ => None,
    }
}

/// The integer content when `j` is a number.
pub fn json_as_num(j: &Json) -> (r: Option<i64>)
    ensures
        r == as_num_spec(*j),
{
    match j {
        Json::Num(n) => Some(*n),
        _ => None,
    }
}

/// The wrapper keys under which listing endpoints hide their entry arrays.
pub open spec fn wrapper_keys() -> Seq<Seq<char>> {
    seq!["items"@, "list"@, "data"@, "results"@, "content"@, "rows"@, "posts"@, "payload"@]
}

/// The first wrapper key from index `ki` on whose value in `j` is an array.
pub open spec fn first_wrapper_array(j: Json, ki: int) -> Option<Seq<Json>>
    decreases wrapper_keys().len() - ki when 0 <= ki <= wrapper_keys().len()
{
    if ki >= wrapper_keys().len() {
        None
    } else {
        match get_spec(j, wrapper_keys()[ki]) {
            Some(Json::Arr(v)) => Some(v@),
            _ => first_wrapper_array(j, ki + 1),
        }
    }
}

/// The candidate array of a listing payload: the payload itself when it is
/// an array, else the first known wrapper key holding an array, else the
/// first array found by walking the object's values recursively.
pub open spec fn find_array_spec(j: Json) -> Option<Seq<Json>>
    decreases j, 1int,
{
    match j {
        Json::Arr(v) => Some(v@),
        Json::Obj(fs) => {
            if first_wrapper_array(j, 0) is Some {
                first_wrapper_array(j, 0)
            } else {
                find_array_fields(fs@)
            }
        },
        _ => None,
    }
}

/// The first array found by [`find_array_spec`] in the values of `fs`.
pub open spec fn find_array_fields(fs: Seq<(String, Json)>) -> Option<Seq<Json>>
    decreases fs, 0int,
{
    if fs.len() == 0 {
        None
    } else if find_array_spec(fs[0].1) is Some {
        find_array_spec(fs[0].1)
    } else {
        find_array_fields(fs.drop_first())
    }
}

fn wrapper_key(i: usize) -> (k: &'static str)
    requires
        i < 8,
    ensures
        k@ == wrapper_keys()[i as int],
{
    match i {
        0 => "items",
        1 => "list",
        2 => "data",
        3 => "results",
        4 => "content",
        5 => "rows",
        6 => "posts",
        7 => "payload",
        _ => "",
    }
}

/// Finds the candidate entry array of a listing payload; see
/// [`find_array_spec`].
pub fn find_array<'a>(j: &'a Json) -> (r: Option<&'a Vec<Json>>)
    ensures
        match r {
            Some(v) => find_array_spec(*j) == Some(v@),
            None => find_array_spec(*j) is None,
        },
    decreases *j,
{
    if let Json::Arr(v) = j {
        return Some(v);
    }
    if let Json::Obj(fs) = j {
        let mut ki: usize = 0;
        while ki < 8
            invariant
                ki <= 8,
                first_wrapper_array(*j, 0) == first_wrapper_array(*j, ki as int),
            decreases 8 - ki,
        {
            let key = text::chars_of(wrapper_key(ki));
            if let Some(val) = json_get(j, &key) {
                if let Json::Arr(v) = val {
                    return Some(v);
                }
            }
            ki += 1;
        }
        let mut i: usize = 0;
        proof {
            assert(fs@.skip(0) =~= fs@);
        }
        while i < fs.len()
            invariant
                i <= fs@.len(),
                find_array_fields(fs@) == find_array_fields(fs@.skip(i as int)),
                first_wrapper_array(*j, 0) is None,
                *j == Json::Obj(*fs),
            decreases fs@.len() - i,
        {
            proof {
                assert(fs@.skip(i as int)[0] == fs@[i as int]);
            }
            if let Some(a) = find_array(&fs[i].1) {
                return Some(a);
            }
            proof {
                assert(fs@.skip(i as int).drop_first() =~= fs@.skip(i as int + 1));
            }
            i += 1;
        }
        return None;
    }
    None
}

/// The keys under which a listing entry may carry its identifier.
pub open spec fn id_keys() -> Seq<Seq<char>> {
    seq!["id"@, "idx"@, "activityId"@, "contestId"@, "postId"@, "aid"@, "cid"@]
}

/// The identifier read from one value: a non-empty string as it is, a
/// number in decimal.
pub open spec fn id_of_value(x: Json) -> Option<Seq<char>> {
    match x {
        Json::Str(s) => if s@.len() > 0 {
            Some(s@)
        } else {
            None
        },
        Json::Num(n) => Some(text::dec_rep_i(n as int)),
        _ => None,
    }
}

/// The identifier from the first id key of `j` that yields one, from key
/// index `ki` on.
pub open spec fn id_from(j: Json, ki: int) -> Option<Seq<char>>
    decreases id_keys().len() - ki when 0 <= ki <= id_keys().len()
{
    if ki >= id_keys().len() {
        None
    } else {
        let hit = match get_spec(j, id_keys()[ki]) {
            Some(x) => id_of_value(x),
            None => None,
        };
        if hit is Some {
            hit
        } else {
            id_from(j, ki + 1)
        }
    }
}

/// The identifier of a listing entry.
pub open spec fn get_id_spec(j: Json) -> Option<Seq<char>> {
    id_from(j, 0)
}

fn id_key(i: usize) -> (k: &'static str)
    requires
        i < 7,
    ensures
        k@ == id_keys()[i as int],
{
    match i {
        0 => "id",
        1 => "idx",
        2 => "activityId",
        3 => "contestId",
        4 => "postId",
        5 => "aid",
        6 => "cid",
        _ => "",
    }
}

/// The identifier of a listing entry; see [`get_id_spec`].
pub fn get_id(j: &Json) -> (r: Option<Vec<char>>)
    ensures
        match r {
            Some(v) => get_id_spec(*j) == Some(v@),
            None => get_id_spec(*j) is None,
        },
{
    let mut ki: usize = 0;
    while ki < 7
        invariant
            ki <= 7,
            id_from(*j, 0) == id_from(*j, ki as int),
        decreases 7 - ki,
    {
        let key = text::chars_of(id_key(ki));
        if let Some(x) = json_get(j, &key) {
            match x {
                Json::Str(s) => {
                    if !s.as_str().is_empty() {
                        return Some(text::chars_of(s.as_str()));
                    }
                },
                Json::Num(n) => {
                    return Some(text::fmt_i64(*n));
                },
                _ => {},
            }
        }
        ki += 1;
    }
    None
}

/// The keys under which a listing entry may carry its title.
pub open spec fn title_keys() -> Seq<Seq<char>> {
    seq!["title"@, "name"@, "subject"@]
}

/// The trimmed text of a string value, when non-empty.
pub open spec fn trimmed_text_of(x: Json) -> Option<Seq<char>> {
    match x {
        Json::Str(s) => if text::trim_spec(s@).len() > 0 {
            Some(text::trim_spec(s@))
        } else {
            None
        },
        _ => None,
    }
}

/// The title from the first title key of `j` that yields one, from key
/// index `ki` on.
pub open spec fn title_from(j: Json, ki: int) -> Option<Seq<char>>
    decreases title_keys().len() - ki when 0 <= ki <= title_keys().len()
{
    if ki >= title_keys().len() {
        None
    } else {
        let hit = match get_spec(j, title_keys()[ki]) {
            Some(x) => trimmed_text_of(x),
            None => None,
        };
        if hit is Some {
            hit
        } else {
            title_from(j, ki + 1)
        }
    }
}

/// The title of a listing entry.
pub open spec fn listing_title_spec(j: Json) -> Option<Seq<char>> {
    title_from(j, 0)
}

fn title_key(i: usize) -> (k: &'static str)
    requires
        i < 3,
    ensures
        k@ == title_keys()[i as int],
{
    match i {
        0 => "title",
        1 => "name",
        2 => "subject",
        _ => "",
    }
}

/// The title of a listing entry; see [`listing_title_spec`].
pub fn listing_title(j: &Json) -> (r: Option<Vec<char>>)
    ensures
        match r {
            Some(v) => listing_title_spec(*j) == Some(v@),
            None => listing_title_spec(*j) is None,
        },
{
    let mut ki: usize = 0;
    while ki < 3
        invariant
            ki <= 3,
            title_from(*j, 0) == title_from(*j, ki as int),
        decreases 3 - ki,
    {
        let key = text::chars_of(title_key(ki));
        if let Some(x) = json_get(j, &key) {
            if let Json::Str(s) = x {
                let t = text::trim_chars(&text::chars_of(s.as_str()));
                if t.len() > 0 {
                    return Some(t);
                }
            }
        }
        ki += 1;
    }
    None
}

/// The keys under which a listing entry may carry its category code.
pub open spec fn category_keys() -> Seq<Seq<char>> {
    seq!["category"@, "categoryId"@, "category_idx"@, "categoryId1"@, "category1"@, "categories"@]
}

/// ASCII punctuation, as the token scan treats it.
pub open spec fn is_ascii_punct(c: char) -> bool {
    ('!' <= c && c <= '/') || (':' <= c && c <= '@') || ('[' <= c && c <= '`') || ('{' <= c && c
        <= '~')
}

/// A character that separates tokens inside a category string.
pub open spec fn tok_delim(c: char) -> bool {
    is_ascii_punct(c) || text::is_space(c)
}

fn tok_delim_char(c: char) -> (r: bool)
    ensures
        r == tok_delim(c),
{
    ('!' <= c && c <= '/') || (':' <= c && c <= '@') || ('[' <= c && c <= '`') || ('{' <= c && c
        <= '~') || text::is_space_char(c)
}

/// Some delimiter-bounded token of `s` is exactly `108`.
pub open spec fn has_token_108(s: Seq<char>) -> bool {
    exists|i: int|
        text::matches_at(s, "108"@, i) && (i == 0 || tok_delim(s[i - 1])) && (i + 3 == s.len()
            || tok_delim(s[i + 3]))
}

fn has_token_108_exec(s: &Vec<char>) -> (r: bool)
    ensures
        r == has_token_108(s@),
{
    let pat = text::chars_of("108");
    if s.len() < 3 {
        proof {
            reveal_strlit("108");
            assert(forall|i: int| !text::matches_at(s@, "108"@, i));
        }
        return false;
    }
    let mut i: usize = 0;
    proof {
        reveal_strlit("108");
    }
    while i <= s.len() - 3
        invariant
            3 <= s@.len(),
            pat@ == "108"@,
            "108"@.len() == 3,
            i <= s@.len() - 2,
            forall|k: int|
                0 <= k < i ==> !(text::matches_at(s@, "108"@, k) && (k == 0 || tok_delim(
                    s@[k - 1],
                )) && (k + 3 == s@.len() || tok_delim(s@[k + 3]))),
        decreases s@.len() - i,
    {
        if text::matches_at_exec(s, &pat, i) {
            let left_ok = if i == 0 {
                true
            } else {
                tok_delim_char(s[i - 1])
            };
            let right_ok = if i + 3 == s.len() {
                true
            } else {
                tok_delim_char(s[i + 3])
            };
            if left_ok && right_ok {
                return true;
            }
        }
        i += 1;
    }
    proof {
        assert forall|k: int| !(text::matches_at(s@, "108"@, k) && (k == 0 || tok_delim(s@[k - 1]))
            && (k + 3 == s@.len() || tok_delim(s@[k + 3]))) by {
            if k >= s@.len() - 2 {
                assert(!text::matches_at(s@, "108"@, k));
            }
        }
    }
    false
}

/// An array element that names category `108`.
pub open spec fn elem_is_108(x: Json) -> bool {
    match x {
        Json::Num(n) => n == 108,
        Json::Str(s) => s@ == "108"@,
        _ => false,
    }
}

/// A category value that names category `108`: the number itself, a string
/// that trims to `108` or holds a `108` token, or an array holding either.
pub open spec fn cat_value_is_108(x: Json) -> bool {
    match x {
        Json::Num(n) => n == 108,
        Json::Str(s) => text::trim_spec(s@) == "108"@ || has_token_108(s@),
        Json::Arr(v) => exists|i: int| 0 <= i < v@.len() && elem_is_108(v@[i]),
        _ => false,
    }
}

/// Whether some category key of `j`, from index `ki` on, names category 108.
pub open spec fn cat_from(j: Json, ki: int) -> bool
    decreases category_keys().len() - ki when 0 <= ki <= category_keys().len()
{
    if ki >= category_keys().len() {
        false
    } else {
        (match get_spec(j, category_keys()[ki]) {
            Some(x) => cat_value_is_108(x),
            None => false,
        }) || cat_from(j, ki + 1)
    }
}

/// The listing entry carries category code 108 under some category key.
pub open spec fn match_category_108_spec(j: Json) -> bool {
    cat_from(j, 0)
}

fn category_key(i: usize) -> (k: &'static str)
    requires
        i < 6,
    ensures
        k@ == category_keys()[i as int],
{
    match i {
        0 => "category",
        1 => "categoryId",
        2 => "category_idx",
        3 => "categoryId1",
        4 => "category1",
        _ => "categories",
    }
}

fn arr_has_108(v: &Vec<Json>) -> (r: bool)
    ensures
        r == exists|i: int| 0 <= i < v@.len() && elem_is_108(v@[i]),
{
    let mut i: usize = 0;
    while i < v.len()
        invariant
            i <= v@.len(),
            forall|k: int| 0 <= k < i ==> !elem_is_108(v@[k]),
        decreases v@.len() - i,
    {
        let hit = match &v[i] {
            Json::Num(n) => *n == 108,
            Json::Str(s) => {
                let cs = text::chars_of(s.as_str());
                let pat = text::chars_of("108");
                text::seq_eq(&cs, &pat)
            },
            _ => false,
        };
        if hit {
            proof {
                assert(elem_is_108(v@[i as int]));
            }
            return true;
        }
        i += 1;
    }
    false
}

fn cat_value_exec(x: &Json) -> (r: bool)
    ensures
        r == cat_value_is_108(*x),
{
    match x {
        Json::Num(n) => *n == 108,
        Json::Str(s) => {
            let cs = text::chars_of(s.as_str());
            let t = text::trim_chars(&cs);
            let pat = text::chars_of("108");
            if text::seq_eq(&t, &pat) {
                return true;
            }
            has_token_108_exec(&cs)
        },
        Json::Arr(v) => arr_has_108(v),
        _ => false,
    }
}

/// Whether the listing entry carries category code 108; see
/// [`match_category_108_spec`].
pub fn match_category_108(j: &Json) -> (r: bool)
    ensures
        r == match_category_108_spec(*j),
{
    let mut ki: usize = 0;
    while ki < 6
        invariant
            ki <= 6,
            cat_from(*j, 0) == cat_from(*j, ki as int),
        decreases 6 - ki,
    {
        let key = text::chars_of(category_key(ki));
        if let Some(x) = json_get(j, &key) {
            if cat_value_exec(x) {
                return true;
            }
        }
        ki += 1;
    }
    false
}

/// The keys under which a payload may carry its organizer.
pub open spec fn company_keys() -> Seq<Seq<char>> {
    seq![
        "company"@,
        "company_name"@,
        "company1"@,
        "company2"@,
        "company3"@,
        "org"@,
        "organization"@,
        "host"@,
        "hostName"@,
        "organizer"@,
        "sponsor"@,
        "hostOrg"@,
        "host_org"@,
    ]
}

/// The non-empty trimmed strings among the elements of `v`, in order.
pub open spec fn str_parts(v: Seq<Json>) -> Seq<Seq<char>>
    decreases v.len(),
{
    if v.len() == 0 {
        Seq::empty()
    } else {
        let rest = str_parts(v.drop_first());
        match v[0] {
            Json::Str(s) => if text::trim_spec(s@).len() > 0 {
                seq![text::trim_spec(s@)] + rest
            } else {
                rest
            },
            _ => rest,
        }
    }
}

/// The organizer read from one value: a non-empty trimmed string, or the
/// non-empty trimmed strings of an array joined by " / ".
pub open spec fn company_of_value(x: Json) -> Option<Seq<char>> {
    match x {
        Json::Str(s) => if text::trim_spec(s@).len() > 0 {
            Some(text::trim_spec(s@))
        } else {
            None
        },
        Json::Arr(v) => if str_parts(v@).len() > 0 {
            Some(text::join_with(str_parts(v@), " / "@))
        } else {
            None
        },
        _ => None,
    }
}

/// The organizer from the first company key of `j` that yields one, from
/// key index `ki` on.
pub open spec fn company_from(j: Json, ki: int) -> Option<Seq<char>>
    decreases company_keys().len() - ki when 0 <= ki <= company_keys().len()
{
    if ki >= company_keys().len() {
        None
    } else {
        let hit = match get_spec(j, company_keys()[ki]) {
            Some(x) => company_of_value(x),
            None => None,
        };
        if hit is Some {
            hit
        } else {
            company_from(j, ki + 1)
        }
    }
}

/// The organizer named by a payload, under the first company key that
/// yields one.
pub open spec fn first_company_spec(j: Json) -> Option<Seq<char>> {
    company_from(j, 0)
}

fn company_key(i: usize) -> (k: &'static str)
    requires
        i < 13,
    ensures
        k@ == company_keys()[i as int],
{
    match i {
        0 => "company",
        1 => "company_name",
        2 => "company1",
        3 => "company2",
        4 => "company3",
        5 => "org",
        6 => "organization",
        7 => "host",
        8 => "hostName",
        9 => "organizer",
        10 => "sponsor",
        11 => "hostOrg",
        _ => "host_org",
    }
}

fn str_parts_exec(v: &Vec<Json>) -> (r: Vec<Vec<char>>)
    ensures
        r@.map_values(|w: Vec<char>| w@) == str_parts(v@),
{
    let mut r: Vec<Vec<char>> = Vec::new();
    let mut i: usize = 0;
    proof {
        assert(v@.skip(0) =~= v@);
    }
    while i < v.len()
        invariant
            i <= v@.len(),
            str_parts(v@) == r@.map_values(|w: Vec<char>| w@) + str_parts(v@.skip(i as int)),
        decreases v@.len() - i,
    {
        proof {
            assert(v@.skip(i as int)[0] == v@[i as int]);
            assert(v@.skip(i as int).drop_first() =~= v@.skip(i as int + 1));
        }
        if let Json::Str(s) = &v[i] {
            let t = text::trim_chars(&text::chars_of(s.as_str()));
            if t.len() > 0 {
                let ghost prev = r@;
                r.push(t);
                proof {
                    assert(r@.map_values(|w: Vec<char>| w@) =~= prev.map_values(
                        |w: Vec<char>| w@,
                    ) + seq![text::trim_spec(s@)]);
                    assert(prev.map_values(|w: Vec<char>| w@) + (seq![text::trim_spec(s@)]
                        + str_parts(v@.skip(i as int + 1))) =~= (prev.map_values(
                        |w: Vec<char>| w@,
                    ) + seq![text::trim_spec(s@)]) + str_parts(v@.skip(i as int + 1)));
                }
            }
        }
        i += 1;
    }
    proof {
        assert(r@.map_values(|w: Vec<char>| w@) + str_parts(v@.skip(i as int)) =~= r@.map_values(
            |w: Vec<char>| w@,
        ));
    }
    r
}

fn company_of_value_exec(x: &Json) -> (r: Option<Vec<char>>)
    ensures
        match r {
            Some(c) => company_of_value(*x) == Some(c@),
            None => company_of_value(*x) is None,
        },
{
    match x {
        Json::Str(s) => {
            let t = text::trim_chars(&text::chars_of(s.as_str()));
            if t.len() > 0 {
                Some(t)
            } else {
                None
            }
        },
        Json::Arr(v) => {
            let parts = str_parts_exec(v);
            if parts.len() > 0 {
                let sep = text::chars_of(" / ");
                let joined = text::join_parts(&parts, &sep);
                proof {
                    assert(parts@.map_values(|w: Vec<char>| w@).len() == parts@.len());
                }
                Some(joined)
            } else {
                proof {
                    assert(parts@.map_values(|w: Vec<char>| w@).len() == parts@.len());
                }
                None
            }
        },
        _ => None,
    }
}

/// The organizer named by a payload; see [`first_company_spec`].
pub fn first_company(j: &Json) -> (r: Option<Vec<char>>)
    ensures
        match r {
            Some(c) => first_company_spec(*j) == Some(c@),
            None => first_company_spec(*j) is None,
        },
{
    let mut ki: usize = 0;
    while ki < 13
        invariant
            ki <= 13,
            company_from(*j, 0) == company_from(*j, ki as int),
        decreases 13 - ki,
    {
        let key = text::chars_of(company_key(ki));
        if let Some(x) = json_get(j, &key) {
            if let Some(c) = company_of_value_exec(x) {
                return Some(c);
            }
        }
        ki += 1;
    }
    None
}

} // verus!
