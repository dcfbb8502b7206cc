use notice_feed::date;
use notice_feed::extract::{extract, extract_structured, extract_text, payload_from_html, DetailPayload};
use notice_feed::json::{parse_json, find_array, get_id, match_category_108, first_company, Json};
use notice_feed::text;

fn canon(s: &str) -> String {
    notice_feed::campuspick::normalize_date(s)
}

#[test]
fn date_canonicalization_dotted() {
    assert_eq!(canon("2025.3.1"), "2025-03-01");
}

#[test]
fn date_canonicalization_slashed() {
    assert_eq!(canon("2025/03/01"), "2025-03-01");
}

#[test]
fn date_canonicalization_with_time() {
    assert_eq!(canon("2025-03-01 10:00:00"), "2025-03-01");
}

#[test]
fn date_canonicalization_short_input_kept() {
    assert_eq!(canon("3.1"), "3-1");
}

#[test]
fn parse_ymd_accepts_valid_date() {
    let d = date::parse_ymd(&text::chars_of("2025-03-01")).unwrap();
    assert_eq!((d.y, d.m, d.d), (2025, 3, 1));
}

#[test]
fn parse_ymd_rejects_bad_day() {
    assert!(date::parse_ymd(&text::chars_of("2025-02-30")).is_none());
    assert!(date::parse_ymd(&text::chars_of("2025-13-01")).is_none());
    assert!(date::parse_ymd(&text::chars_of("2025-03-1")).is_none());
}

#[test]
fn leap_year_february() {
    assert!(date::parse_ymd(&text::chars_of("2024-02-29")).is_some());
    assert!(date::parse_ymd(&text::chars_of("2025-02-29")).is_none());
}

#[test]
fn day_arithmetic() {
    let a = date::parse_ymd(&text::chars_of("2025-03-01")).unwrap();
    let b = date::parse_ymd(&text::chars_of("2025-03-11")).unwrap();
    assert_eq!(date::days_until(&b, &a), 10);
    let c = date::parse_ymd(&text::chars_of("2024-12-31")).unwrap();
    let d = date::parse_ymd(&text::chars_of("2025-01-01")).unwrap();
    assert_eq!(date::days_until(&d, &c), 1);
}

fn obj(fields: Vec<(&str, Json)>) -> Json {
    Json::Obj(fields.into_iter().map(|(k, v)| (k.to_string(), v)).collect())
}

fn s(v: &str) -> Json {
    Json::Str(v.to_string())
}

#[test]
fn structured_lookup_reads_dates_and_company() {
    let j = obj(vec![
        ("startDate", s("2025.3.1")),
        ("deadline", s("2025-03-20 18:00:00")),
        ("company", s("  ACME  ")),
    ]);
    let r = extract_structured(&j);
    assert_eq!(r.start.as_deref(), Some("2025-03-01"));
    assert_eq!(r.end.as_deref(), Some("2025-03-20"));
    assert_eq!(r.organizer.as_deref(), Some("ACME"));
}

#[test]
fn structured_lookup_reads_namespaced_wrapper() {
    let j = obj(vec![("data", obj(vec![("startDate", s("2025-04-01")), ("endDate", s("2025-04-09"))]))]);
    let r = extract_structured(&j);
    assert_eq!(r.start.as_deref(), Some("2025-04-01"));
    assert_eq!(r.end.as_deref(), Some("2025-04-09"));
    assert_eq!(r.organizer, None);
}

#[test]
fn parse_json_builds_the_tree() {
    let j = parse_json("{\"id\": 12, \"title\": \" Hack \", \"category\": \"103,108\"}").unwrap();
    assert_eq!(get_id(&j).unwrap(), text::chars_of("12"));
    assert!(match_category_108(&j));
    let r = notice_feed::campuspick::screen_entry("contest", &j).unwrap();
    assert_eq!(r.title, "Hack");
}

#[test]
fn parse_json_rejects_garbage() {
    assert!(parse_json("not json at all {").is_none());
}

#[test]
fn find_array_prefers_known_wrapper_keys() {
    let j = parse_json("{\"meta\": {\"inner\": [1]}, \"list\": [1, 2, 3]}").unwrap();
    let a = find_array(&j).unwrap();
    assert_eq!(a.len(), 3);
}

#[test]
fn find_array_recurses_into_values() {
    let j = parse_json("{\"meta\": {\"whatever\": [1, 2]}}").unwrap();
    let a = find_array(&j).unwrap();
    assert_eq!(a.len(), 2);
}

#[test]
fn first_company_joins_array_values() {
    let j = parse_json("{\"host\": [\" A \", \"\", \"B\"]}").unwrap();
    let c = first_company(&j).unwrap();
    assert_eq!(text::string_of(&c), "A / B");
}

#[test]
fn extractor_fallback_ordering_structured_wins() {
    let tree = obj(vec![("startDate", s("2025-03-01")), ("endDate", s("2025-03-10"))]);
    let scripts = "var x = { startDate : \"2026-05-05\", endDate : \"2026-06-06\" };".to_string();
    let payloads = vec![
        DetailPayload::SemiStructured {
            scripts: scripts.clone(),
            sections: vec![],
            full_text: String::new(),
        },
        DetailPayload::Structured(tree),
    ];
    let r = extract(&payloads, &None, 2025);
    assert_eq!(r.start.as_deref(), Some("2025-03-01"));
    assert_eq!(r.end.as_deref(), Some("2025-03-10"));
}

#[test]
fn script_block_strategy_reads_fields() {
    let scripts =
        "init({ startDate : \"2025.03.01\", endDate : \"2025.03.20\", company1 : \"B corp\", company2 : \"A corp\", company3 : \"B corp\" });"
            .to_string();
    let payloads = vec![DetailPayload::SemiStructured {
        scripts,
        sections: vec![],
        full_text: String::new(),
    }];
    let r = extract(&payloads, &None, 2025);
    assert_eq!(r.start.as_deref(), Some("2025-03-01"));
    assert_eq!(r.end.as_deref(), Some("2025-03-20"));
    assert_eq!(r.organizer.as_deref(), Some("A corp / B corp"));
}

#[test]
fn localized_range_inherits_hint_year() {
    let txt = text::chars_of("접수 3월 10일(월) ~ 4월 2일(수) 마감");
    let r = extract_text(&txt, Some(2025), 2020);
    assert_eq!(r.start.as_deref(), Some("2025-03-10"));
    assert_eq!(r.end.as_deref(), Some("2025-04-02"));
}

#[test]
fn localized_range_spans_year_boundary() {
    let txt = text::chars_of("11월 20일 ~ 2월 2일");
    let r = extract_text(&txt, Some(2025), 2020);
    assert_eq!(r.start.as_deref(), Some("2024-11-20"));
    assert_eq!(r.end.as_deref(), Some("2025-02-02"));
}

#[test]
fn localized_range_uses_current_year_without_hint() {
    let txt = text::chars_of("3월 10일 ~ 4월 2일");
    let r = extract_text(&txt, None, 2023);
    assert_eq!(r.start.as_deref(), Some("2023-03-10"));
    assert_eq!(r.end.as_deref(), Some("2023-04-02"));
}

#[test]
fn numeric_range_beats_localized() {
    let txt = text::chars_of("기간 2025-03-01 ~ 2025-3-9 또는 5월 1일 ~ 5월 2일");
    let r = extract_text(&txt, None, 2020);
    assert_eq!(r.start.as_deref(), Some("2025-03-01"));
    assert_eq!(r.end.as_deref(), Some("2025-03-09"));
}

#[test]
fn single_localized_date_gives_end_only() {
    let txt = text::chars_of("서류 접수는 2025년 4월 30일 마감");
    let r = extract_text(&txt, None, 2020);
    assert_eq!(r.start, None);
    assert_eq!(r.end.as_deref(), Some("2025-04-30"));
    let until = text::chars_of("5월 2일까지 접수");
    let r2 = extract_text(&until, None, 2024);
    assert_eq!(r2.end.as_deref(), Some("2024-05-02"));
}

#[test]
fn single_date_without_deadline_marker_is_not_a_deadline() {
    let txt = text::chars_of("시상식은 2025년 4월 30일 예정");
    let r = extract_text(&txt, None, 2020);
    assert_eq!(r.start, None);
    assert_eq!(r.end, None);
}

#[test]
fn organizer_from_labelled_text() {
    let txt = text::chars_of("안내 주최: 한국정보산업연합회 / KISIA, 미래부 행사입니다");
    let r = extract_text(&txt, None, 2020);
    assert_eq!(
        r.organizer.as_deref(),
        Some("한국정보산업연합회 / KISIA / 미래부 행사입니다")
    );
}

#[test]
fn end_to_end_three_payload_kinds() {
    // One structured JSON payload.
    let structured = DetailPayload::Structured(
        parse_json("{\"startDate\": \"2025-03-01\", \"endDate\": \"2025-03-10\", \"company\": \"Alpha\"}")
            .unwrap(),
    );
    // One script-block document.
    let html_script = "<html><body><script>var d = { startDate : \"2025-04-01\", endDate : \"2025-04-09\", company1 : \"Beta\" };</script></body></html>";
    let script_payload = payload_from_html(html_script);
    // One free-text document.
    let html_text = "<html><body><div class=\"section\"><p>접수 기간</p><p>2025년 5월 1일 ~ 2025년 5월 9일</p><p>주최: Gamma</p></div></body></html>";
    let text_payload = payload_from_html(html_text);

    let a = extract(&vec![structured], &None, 2025);
    assert_eq!(
        (a.start.as_deref(), a.end.as_deref(), a.organizer.as_deref()),
        (Some("2025-03-01"), Some("2025-03-10"), Some("Alpha"))
    );
    let b = extract(&vec![script_payload], &None, 2025);
    assert_eq!(
        (b.start.as_deref(), b.end.as_deref(), b.organizer.as_deref()),
        (Some("2025-04-01"), Some("2025-04-09"), Some("Beta"))
    );
    let c = extract(&vec![text_payload], &None, 2025);
    assert_eq!(
        (c.start.as_deref(), c.end.as_deref(), c.organizer.as_deref()),
        (Some("2025-05-01"), Some("2025-05-09"), Some("Gamma"))
    );
}

#[test]
fn section_scoped_text_beats_full_document() {
    let html = "<html><body><div class=\"section\"><h3>모집 기간</h3><p>2025-06-01 ~ 2025-06-10</p></div><div>elsewhere 2024-01-01 ~ 2024-01-02</div></body></html>";
    let p = payload_from_html(html);
    let r = extract(&vec![p], &None, 2025);
    assert_eq!(r.start.as_deref(), Some("2025-06-01"));
    assert_eq!(r.end.as_deref(), Some("2025-06-10"));
}
