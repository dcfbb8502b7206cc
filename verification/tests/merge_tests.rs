use notice_feed::crawl::{retain_within_window, CrawlBudget, CrawlSession};
use notice_feed::date;
use notice_feed::fetch::{first_accepted, looks_like_bot, response_ok, RetryState};
use notice_feed::merge::{merge_notices, sort_notices, SortOrder};
use notice_feed::notice::{infer_kind_from_label, Kind, Notice, Source};
use notice_feed::text;

fn notice(source: Source, kind: Kind, title: &str, url: &str, start: Option<&str>, end: Option<&str>) -> Notice {
    Notice {
        source,
        kind,
        title: title.to_string(),
        url: url.to_string(),
        start: start.map(|s| s.to_string()),
        end: end.map(|s| s.to_string()),
        organizer: None,
        field: None,
    }
}

#[test]
fn merge_dedups_by_normalized_url() {
    let a = notice(Source::Wevity, Kind::Contest, "A", "https://w.example/x?c=1&gp=2", Some("2025-03-01"), None);
    let b = notice(Source::Wevity, Kind::Contest, "B", "https://w.example/x?c=1&gp=5", Some("2025-04-01"), None);
    let m = merge_notices(vec![vec![a, b]]);
    assert_eq!(m.len(), 1);
    assert_eq!(m[0].title, "A");
}

#[test]
fn merge_dedups_across_sources_by_title_and_dates() {
    let a = notice(Source::Wevity, Kind::Contest, "Big  Hack", "https://w.example/1", Some("2025-03-01"), Some("2025-03-10"));
    let b = notice(Source::Dacon, Kind::Contest, "  big hack ", "https://d.example/2", Some("2025-03-01"), Some("2025-03-10"));
    let m = merge_notices(vec![vec![a], vec![b]]);
    assert_eq!(m.len(), 1);
    assert_eq!(m[0].source, Source::Wevity);
}

#[test]
fn merge_cross_dedup_ignores_ideographic_spaces() {
    let a = notice(Source::Wevity, Kind::Contest, "Big\u{3000}Hack", "https://w.example/1", Some("2025-03-01"), Some("2025-03-10"));
    let b = notice(Source::Dacon, Kind::Contest, " big hack ", "https://d.example/2", Some("2025-03-01"), Some("2025-03-10"));
    let merged = merge_notices(vec![vec![a], vec![b]]);
    assert_eq!(merged.len(), 1);
}

#[test]
fn merge_keeps_distinct_notices() {
    let a = notice(Source::Wevity, Kind::Contest, "One", "https://w.example/1", Some("2025-03-01"), None);
    let b = notice(Source::Dacon, Kind::Contest, "Two", "https://d.example/2", Some("2025-03-02"), None);
    let m = merge_notices(vec![vec![a], vec![b]]);
    assert_eq!(m.len(), 2);
}

#[test]
fn merge_is_idempotent() {
    let a = notice(Source::Wevity, Kind::Contest, "One", "https://w.example/1", Some("2025-03-01"), Some("2025-03-05"));
    let b = notice(Source::Dacon, Kind::Activity, "Two", "https://d.example/2", None, Some("2025-03-02"));
    let c = notice(Source::Campuspick, Kind::Contest, "Three", "https://c.example/3", Some("2025-02-01"), None);
    let m = merge_notices(vec![vec![a], vec![b, c]]);
    let again = merge_notices(vec![m.clone()]);
    assert_eq!(again, m);
}

#[test]
fn merged_view_is_most_recent_first_with_contests_before_activities() {
    let a = notice(Source::Wevity, Kind::Activity, "Act", "https://w.example/1", Some("2025-03-01"), None);
    let b = notice(Source::Wevity, Kind::Contest, "Con", "https://w.example/2", Some("2025-03-01"), None);
    let c = notice(Source::Wevity, Kind::Contest, "Newest", "https://w.example/3", Some("2025-05-01"), None);
    let d = notice(Source::Wevity, Kind::Contest, "Dateless", "https://w.example/4", None, None);
    let m = merge_notices(vec![vec![a, b, c, d]]);
    let titles: Vec<&str> = m.iter().map(|n| n.title.as_str()).collect();
    assert_eq!(titles, vec!["Newest", "Con", "Act", "Dateless"]);
}

#[test]
fn upcoming_view_sorts_ascending_with_titles_on_ties() {
    let a = notice(Source::Wevity, Kind::Contest, "Beta", "https://w.example/1", Some("2025-03-01"), Some("2025-03-10"));
    let b = notice(Source::Wevity, Kind::Contest, "Alpha", "https://w.example/2", Some("2025-03-01"), Some("2025-03-10"));
    let c = notice(Source::Wevity, Kind::Contest, "NoStart", "https://w.example/3", None, Some("2025-03-10"));
    let d = notice(Source::Wevity, Kind::Contest, "Early", "https://w.example/4", Some("2025-02-01"), Some("2025-02-10"));
    let m = sort_notices(vec![a, b, c, d], &SortOrder::Upcoming);
    let titles: Vec<&str> = m.iter().map(|n| n.title.as_str()).collect();
    assert_eq!(titles, vec!["Early", "Alpha", "Beta", "NoStart"]);
}

#[test]
fn window_filter_edges() {
    let today = date::parse_ymd(&text::chars_of("2025-03-10")).unwrap();
    let on_today = notice(Source::Dacon, Kind::Contest, "T", "https://d.example/1", None, Some("2025-03-10"));
    let yesterday = notice(Source::Dacon, Kind::Contest, "Y", "https://d.example/2", None, Some("2025-03-09"));
    let beyond = notice(Source::Dacon, Kind::Contest, "B", "https://d.example/3", None, Some("2025-03-31"));
    let last_ok = notice(Source::Dacon, Kind::Contest, "L", "https://d.example/4", None, Some("2025-03-30"));
    let undated = notice(Source::Dacon, Kind::Contest, "U", "https://d.example/5", None, None);
    let kept = retain_within_window(vec![on_today, yesterday, beyond, last_ok, undated], &today, 20);
    let titles: Vec<&str> = kept.iter().map(|n| n.title.as_str()).collect();
    assert_eq!(titles, vec!["T", "L"]);
}

#[test]
fn window_zero_days_keeps_today_only() {
    let today = date::parse_ymd(&text::chars_of("2025-03-10")).unwrap();
    let on_today = notice(Source::Dacon, Kind::Contest, "T", "https://d.example/1", None, Some("2025-03-10"));
    let tomorrow = notice(Source::Dacon, Kind::Contest, "M", "https://d.example/2", None, Some("2025-03-11"));
    let kept = retain_within_window(vec![on_today, tomorrow], &today, 0);
    assert_eq!(kept.len(), 1);
    assert_eq!(kept[0].title, "T");
}

#[test]
fn anti_bot_heuristic() {
    assert!(looks_like_bot(403, &String::new()));
    assert!(looks_like_bot(503, &String::new()));
    assert!(looks_like_bot(200, &"... cf-ray: abc ...".to_string()));
    assert!(looks_like_bot(200, &"<title>Attention Required</title>".to_string()));
    assert!(!looks_like_bot(200, &"<html>fine</html>".to_string()));
}

#[test]
fn response_acceptance() {
    assert!(response_ok(200, &"body".to_string()));
    assert!(!response_ok(200, &String::new()));
    assert!(!response_ok(404, &"body".to_string()));
    assert!(!response_ok(200, &"cf-ray".to_string()));
}

#[test]
fn retry_backoff_schedule() {
    let s0 = RetryState::start();
    assert_eq!((s0.attempts_left, s0.backoff_ms), (3, 300));
    let s1 = s0.after_failure();
    assert_eq!((s1.attempts_left, s1.backoff_ms), (2, 600));
    let s2 = s1.after_failure();
    assert_eq!((s2.attempts_left, s2.backoff_ms), (1, 1200));
    let s3 = s2.after_failure();
    assert_eq!((s3.attempts_left, s3.backoff_ms), (0, 1500));
    assert!(s3.exhausted());
}

#[test]
fn first_accepted_attempt_wins() {
    let attempts = vec![
        (503u16, "challenge".to_string()),
        (200u16, String::new()),
        (200u16, "real body".to_string()),
    ];
    assert_eq!(first_accepted(&attempts), Some(2));
    let none: Vec<(u16, String)> = vec![(403, "x".to_string())];
    assert_eq!(first_accepted(&none), None);
}

#[test]
fn crawl_session_dedups_and_pages() {
    let budget = CrawlBudget { deadline_ms: 1000, max_pages: 2, max_concurrency: 4 };
    let mut s = CrawlSession::begin(budget);
    assert!(s.may_start(999));
    assert!(!s.may_start(1000));
    assert_eq!(s.take_page(), Some(1));
    assert_eq!(s.take_page(), Some(2));
    assert_eq!(s.take_page(), None);
    assert!(s.accept_entry(&"k1".to_string()));
    assert!(!s.accept_entry(&"k1".to_string()));
    assert!(s.accept_entry(&"k2".to_string()));
}

#[test]
fn kind_inference_from_labels() {
    assert_eq!(infer_kind_from_label(" ACTIVITY ", Kind::Contest), Kind::Activity);
    assert_eq!(infer_kind_from_label("공모전", Kind::Activity), Kind::Contest);
    assert_eq!(infer_kind_from_label("Competition", Kind::Activity), Kind::Contest);
    assert_eq!(infer_kind_from_label("무언가", Kind::Activity), Kind::Activity);
}

#[test]
fn display_line_format() {
    let n = notice(
        Source::Wevity,
        Kind::Contest,
        "Hack",
        "https://w.example/1",
        Some("2025-03-01"),
        Some("2025-03-10"),
    );
    assert_eq!(n.display_line(), "[Wevity/Contest] Hack | - | 2025-03-01 ~ 2025-03-10 | https://w.example/1");
    let mut with_field = n.clone();
    with_field.field = Some("IT".to_string());
    with_field.organizer = Some("ACME".to_string());
    assert_eq!(
        with_field.display_line(),
        "[Wevity/Contest] Hack | ACME | 2025-03-01 ~ 2025-03-10 | https://w.example/1 | IT"
    );
}
