use notice_feed::campuspick;
use notice_feed::crawl::{CrawlBudget, CrawlSession};
use notice_feed::dacon;
use notice_feed::date;
use notice_feed::feed::{feed_entry, rfc2822_midnight};
use notice_feed::json::parse_json;
use notice_feed::notice::{Kind, Notice, Source};
use notice_feed::text;
use notice_feed::wevity;

#[test]
fn wevity_norm_text_collapses_whitespace() {
    assert_eq!(wevity::norm_text("  a\r\n b\t\u{00A0} c  "), "a b c");
    // The ideographic space is a blank too.
    assert_eq!(wevity::norm_text("\u{3000}해커톤\u{3000}\u{3000}대회\u{3000}"), "해커톤 대회");
}

#[test]
fn wevity_period_value_parses_both_sides() {
    let (s, e) = wevity::parse_period_value("2025-03-01 ~ 2025-03-20");
    assert_eq!(s.as_deref(), Some("2025-03-01"));
    assert_eq!(e.as_deref(), Some("2025-03-20"));
}

#[test]
fn wevity_period_value_rejects_invalid_dates() {
    let (s, e) = wevity::parse_period_value("2025-02-30 ~ soon");
    assert_eq!(s, None);
    assert_eq!(e, None);
}

#[test]
fn wevity_activity_keywords_are_case_insensitive() {
    assert!(wevity::matches_activity_keywords("2025 AI 캠프"));
    assert!(wevity::matches_activity_keywords("보안 컨퍼런스 서포터즈"));
    assert!(!wevity::matches_activity_keywords("요리 대회"));
}

#[test]
fn wevity_screen_entry_resolves_and_dedups() {
    let budget = CrawlBudget { deadline_ms: 1000, max_pages: 3, max_concurrency: 4 };
    let mut session = CrawlSession::begin(budget);
    let e1 = wevity::screen_listing_entry(&mut session, " 해커톤  대회 ", "?c=find&idx=9", &None).unwrap();
    assert_eq!(e1.title, "해커톤 대회");
    assert_eq!(e1.url, "https://www.wevity.com/?c=find&idx=9");
    // The same reference again is a duplicate in this session.
    assert!(wevity::screen_listing_entry(&mut session, "해커톤 대회", "?c=find&idx=9", &None).is_none());
    // An empty title never yields an entry.
    assert!(wevity::screen_listing_entry(&mut session, "   ", "?c=find&idx=10", &None).is_none());
}

#[test]
fn wevity_detail_builds_contest() {
    let rows = vec![
        ("기간".to_string(), "기간 어쩌고".to_string()),
        ("주최/주관".to_string(), "주최/주관  한국정보산업연합회 외".to_string()),
    ];
    let c = wevity::contest_from_detail(
        "해커톤".to_string(),
        "https://www.wevity.com/?c=find&idx=9".to_string(),
        "공모전",
        None,
        &Some("2025-03-01 ~ 2025-03-20".to_string()),
        &rows,
    );
    assert_eq!(c.start.as_deref(), Some("2025-03-01"));
    assert_eq!(c.end.as_deref(), Some("2025-03-20"));
    assert_eq!(c.organizer, "한국정보산업연합회 외");
    let n = wevity::to_notice_from_wevity(&c);
    assert_eq!(n.kind, Kind::Contest);
    assert_eq!(n.organizer.as_deref(), Some("한국정보산업연합회 외"));
}

#[test]
fn wevity_activity_category_maps_to_activity_kind() {
    let c = wevity::Contest {
        title: "IT 서포터즈".to_string(),
        organizer: "  ".to_string(),
        url: "https://www.wevity.com/?c=active&idx=1".to_string(),
        start: None,
        end: Some("2025-03-20".to_string()),
        category: "대외활동".to_string(),
        field: Some("IT".to_string()),
    };
    let n = wevity::to_notice_from_wevity(&c);
    assert_eq!(n.kind, Kind::Activity);
    assert_eq!(n.organizer, None);
    assert_eq!(n.end.as_deref(), Some("2025-03-20"));
}

#[test]
fn campuspick_detail_urls() {
    let id = text::chars_of("77");
    assert_eq!(campuspick::build_detail_url("activity", &id), "https://www.campuspick.com/activity/view?id=77");
    assert_eq!(campuspick::build_detail_url("contest", &id), "https://www.campuspick.com/contest/view?id=77");
}

#[test]
fn campuspick_title_keywords() {
    assert!(campuspick::title_keyword_hit("청년 it 아카데미"));
    assert!(campuspick::title_keyword_hit("개발자 양성과정"));
    assert!(!campuspick::title_keyword_hit("베이킹 클래스"));
}

#[test]
fn campuspick_screen_contest_requires_category() {
    let j = parse_json("{\"id\": 5, \"title\": \"Hack\", \"category\": 103}").unwrap();
    assert!(campuspick::screen_entry("contest", &j).is_none());
    let j2 = parse_json("{\"id\": 5, \"title\": \"Hack\", \"category\": 108, \"endDate\": \"2025.3.20\"}").unwrap();
    let c = campuspick::screen_entry("contest", &j2).unwrap();
    assert_eq!(c.end0.as_deref(), Some("2025-03-20"));
}

#[test]
fn campuspick_screen_activity_requires_keyword() {
    let j = parse_json("{\"idx\": \"a9\", \"name\": \"SW 캠프\", \"startDate\": \"2025-03-01\"}").unwrap();
    let c = campuspick::screen_entry("activity", &j).unwrap();
    assert_eq!(c.id, "a9");
    assert_eq!(c.start0.as_deref(), Some("2025-03-01"));
    let j2 = parse_json("{\"idx\": \"a9\", \"name\": \"베이킹\"}").unwrap();
    assert!(campuspick::screen_entry("activity", &j2).is_none());
}

#[test]
fn campuspick_finish_row_applies_window() {
    let today = date::parse_ymd(&text::chars_of("2025-03-10")).unwrap();
    let c = campuspick::Candidate {
        id: "5".to_string(),
        title: "Hack".to_string(),
        start0: None,
        end0: None,
        company0: None,
    };
    let ex = notice_feed::extract::ExtractionResult {
        start: Some("2025-03-01".to_string()),
        end: Some("2025-03-20".to_string()),
        organizer: Some("ACME".to_string()),
    };
    let row = campuspick::finish_row("contest", c, ex, &today, 20).unwrap();
    assert_eq!(row.url, "https://www.campuspick.com/contest/view?id=5");
    assert_eq!(row.end.as_deref(), Some("2025-03-20"));
    assert_eq!(row.company.as_deref(), Some("ACME"));

    let c2 = campuspick::Candidate {
        id: "6".to_string(),
        title: "Old".to_string(),
        start0: None,
        end0: Some("2025-03-01".to_string()),
        company0: None,
    };
    let ex2 = notice_feed::extract::ExtractionResult { start: None, end: None, organizer: None };
    assert!(campuspick::finish_row("contest", c2, ex2, &today, 20).is_none());
}

#[test]
fn campuspick_notice_kind_follows_url() {
    let r = campuspick::Row {
        kind: "contest".to_string(),
        title: "SW 캠프".to_string(),
        url: "https://www.campuspick.com/activity/view?id=9".to_string(),
        start: Some("2025-03-01".to_string()),
        end: Some("2025-03-20".to_string()),
        company: None,
    };
    let n = campuspick::to_notice_from_campuspick(&r);
    assert_eq!(n.kind, Kind::Activity);
    assert_eq!(n.source, Source::Campuspick);
}

#[test]
fn dacon_parse_items_from_plain_array() {
    let body = "[{\"cpt_id\": 12, \"name\": \"AI 경진\", \"period_end\": \"2025-03-20 18:00:00\"}]";
    let items = dacon::parse_items(body).unwrap();
    assert_eq!(items.len(), 1);
    assert_eq!(items[0].cpt_id, 12);
    assert_eq!(items[0].name, "AI 경진");
    assert_eq!(items[0].keyword, "");
}

#[test]
fn dacon_parse_items_from_wrapper() {
    let body = "{\"list\": [{\"cpt_id\": 1, \"name\": \"a\"}, {\"cpt_id\": 2, \"name\": \"b\"}]}";
    let items = dacon::parse_items(body).unwrap();
    assert_eq!(items.len(), 2);
    assert_eq!(items[1].cpt_id, 2);
}

#[test]
fn dacon_parse_items_from_unnamed_object_array() {
    let body = "{\"stuff\": [{\"cpt_id\": 3, \"name\": \"c\"}]}";
    let items = dacon::parse_items(body).unwrap();
    assert_eq!(items.len(), 1);
    assert_eq!(items[0].cpt_id, 3);
}

#[test]
fn dacon_wrapped_array_drops_undecodable_elements() {
    let body = "{\"list\": [{\"cpt_id\": \"x\", \"name\": 3}, {\"cpt_id\": 2, \"name\": \"b\"}, 7]}";
    let items = dacon::parse_items(body).unwrap();
    assert_eq!(items.len(), 1);
    assert_eq!(items[0].cpt_id, 2);
}

#[test]
fn dacon_top_level_array_must_decode_whole() {
    assert_eq!(
        dacon::parse_items("[{\"cpt_id\": 2, \"name\": \"b\"}, 7]"),
        Err(dacon::ParseItemsError::UnsupportedShape)
    );
    assert_eq!(
        dacon::parse_items("[{\"cpt_id\": \"oops\"}]"),
        Err(dacon::ParseItemsError::UnsupportedShape)
    );
}

#[test]
fn dacon_parse_items_errors() {
    assert_eq!(dacon::parse_items("not json"), Err(dacon::ParseItemsError::NotJson));
    assert_eq!(dacon::parse_items("{\"n\": 3}"), Err(dacon::ParseItemsError::UnsupportedShape));
}

fn item(name: &str, name_eng: &str, keyword: &str, end: &str) -> dacon::Item {
    dacon::Item {
        cpt_id: 7,
        name: name.to_string(),
        name_eng: name_eng.to_string(),
        keyword: keyword.to_string(),
        keyword_eng: "".to_string(),
        period_start: "2025-03-01 00:00:00".to_string(),
        period_end: end.to_string(),
    }
}

#[test]
fn dacon_keyword_filter() {
    assert!(dacon::pass_keyword_filter(&item("제조 AI 대회", "", "", "2025-03-20 18:00:00")));
    assert!(dacon::pass_keyword_filter(&item("경진대회", "", "보안", "2025-03-20 18:00:00")));
    assert!(!dacon::pass_keyword_filter(&item("그림 대회", "", "미술", "2025-03-20 18:00:00")));
}

#[test]
fn dacon_deadline_window() {
    let today = date::parse_ymd(&text::chars_of("2025-03-10")).unwrap();
    assert!(dacon::within_deadline_days(&item("a", "", "", "2025-03-30 18:00:00"), 20, &today));
    assert!(!dacon::within_deadline_days(&item("a", "", "", "2025-03-31 18:00:00"), 20, &today));
    assert!(!dacon::within_deadline_days(&item("a", "", "", "2025-03-09 18:00:00"), 20, &today));
    assert!(!dacon::within_deadline_days(&item("a", "", "", "unknown"), 20, &today));
}

#[test]
fn dacon_notice_normalization() {
    let n = dacon::to_notice_from_dacon(&item(" AI 경진 ", "", "", "2025-03-20 18:00:00"));
    assert_eq!(n.title, "AI 경진");
    assert_eq!(n.url, "https://dacon.io/competitions/official/7");
    assert_eq!(n.start.as_deref(), Some("2025-03-01"));
    assert_eq!(n.end.as_deref(), Some("2025-03-20"));
    assert_eq!(n.kind, Kind::Contest);
}

#[test]
fn rfc2822_formatting() {
    let d = date::parse_ymd(&text::chars_of("2025-03-01")).unwrap();
    assert_eq!(rfc2822_midnight(&d), "Sat, 01 Mar 2025 00:00:00 +0000");
    let epoch = date::parse_ymd(&text::chars_of("1970-01-01")).unwrap();
    assert_eq!(rfc2822_midnight(&epoch), "Thu, 01 Jan 1970 00:00:00 +0000");
}

#[test]
fn feed_entry_contents() {
    let n = Notice {
        source: Source::Dacon,
        kind: Kind::Contest,
        title: "AI 경진".to_string(),
        url: "https://dacon.io/competitions/official/7".to_string(),
        start: Some("2025-03-01".to_string()),
        end: Some("2025-03-20".to_string()),
        organizer: Some("ACME".to_string()),
        field: None,
    };
    let e = feed_entry(&n, &"fallback".to_string());
    assert_eq!(e.title, "AI 경진");
    assert_eq!(e.description, "주최: ACME<br>기간: 2025-03-01 ~ 2025-03-20<br>분야: -");
    assert_eq!(e.pub_date, "Sat, 01 Mar 2025 00:00:00 +0000");
    assert_eq!(e.category_kind, "공모전");
    assert_eq!(e.category_source, "Dacon");

    let undated = Notice { start: None, end: None, ..n };
    let e2 = feed_entry(&undated, &"fallback".to_string());
    assert_eq!(e2.pub_date, "fallback");
}

#[test]
fn formatting_helpers() {
    assert_eq!(text::string_of(&text::fmt_u64(12034)), "12034");
    assert_eq!(text::string_of(&text::fmt_u64_pad(7, 4)), "0007");
    assert_eq!(text::string_of(&text::fmt_i64(-45)), "-45");
}

#[test]
fn wevity_detail_wrappers_read_the_document() {
    let html = "<html><body><form><input name=\"during\" value=\"2025-03-01 ~ 2025-03-20\"></form><ul class=\"cd-info-list\"><li><span class=\"tit\">주최</span> ACME</li></ul></body></html>";
    assert_eq!(wevity::during_value_of(html).as_deref(), Some("2025-03-01 ~ 2025-03-20"));
    let rows = wevity::info_rows_of(html);
    assert_eq!(rows.len(), 1);
    assert!(rows[0].0.contains("주최"));
    assert!(rows[0].1.contains("ACME"));
}

#[test]
fn current_date_is_a_valid_civil_date() {
    let d = date::current_date().unwrap();
    assert!((1..=12).contains(&d.m));
    assert!((1..=31).contains(&d.d));
    assert!((1..=9999).contains(&d.y));
}
