use yingfeng_data::models::{BusinessInput, CrawlerEvent, WebsiteResult};
use yingfeng_data::search::{
    enrichment_increment, no_website_result, website_needs_crawl, JobUpdate, SearchEnd, SearchRun,
};

#[test]
fn protocol_lines_update_the_task() {
    let mut run = SearchRun::new();
    match run.on_event(CrawlerEvent::Status { message: "打开页面".to_string() }) {
        JobUpdate::Status { status, message } => {
            assert_eq!(status, "running");
            assert_eq!(message, "打开页面");
        }
        _ => panic!("expected a status update"),
    }
    match run.on_event(CrawlerEvent::Progress { discovered: 5, message: "m".to_string() }) {
        JobUpdate::Discovered { discovered, message } => {
            assert_eq!(discovered, 5);
            assert_eq!(message, "m");
        }
        _ => panic!("expected a count update"),
    }
    match run.on_event(CrawlerEvent::Done { discovered: 9 }) {
        JobUpdate::Discovered { discovered, message } => {
            assert_eq!(discovered, 9);
            assert_eq!(message, "Google Maps 采集完成，正在整理官网结果");
        }
        _ => panic!("expected a count update"),
    }
    match run.on_event(CrawlerEvent::Blocked { message: "验证码".to_string() }) {
        JobUpdate::Status { status, .. } => assert_eq!(status, "blocked"),
        _ => panic!("expected a status update"),
    }
    let data = BusinessInput { name: "Shop".to_string(), ..BusinessInput::default() };
    match run.on_event(CrawlerEvent::Business { data }) {
        JobUpdate::SaveBusiness(b) => assert_eq!(b.name, "Shop"),
        _ => panic!("expected a business"),
    }
    assert!(matches!(
        run.on_event(CrawlerEvent::Diagnostic { message: "x".to_string() }),
        JobUpdate::Ignore
    ));
    assert!(run.event_error.is_empty());
}

#[test]
fn failed_search_reports_the_last_error() {
    let mut run = SearchRun::new();
    run.on_event(CrawlerEvent::Error { message: "浏览器崩溃".to_string() });
    assert_eq!(run.event_error, "浏览器崩溃");
    match run.finish(false, "trace\nlast line\n") {
        SearchEnd::Failed(m) => assert_eq!(m, "浏览器崩溃"),
        _ => panic!("expected a failure"),
    }
    assert!(matches!(run.finish(true, ""), SearchEnd::Completed));
}

#[test]
fn failed_search_falls_back_to_stderr_then_generic_message() {
    let run = SearchRun::new();
    match run.finish(false, "warning\r\nnode crashed\r\n") {
        SearchEnd::Failed(m) => assert_eq!(m, "node crashed"),
        _ => panic!("expected a failure"),
    }
    match run.finish(false, "  \n ") {
        SearchEnd::Failed(m) => assert_eq!(m, "采集器异常退出"),
        _ => panic!("expected a failure"),
    }
    match run.finish(false, "") {
        SearchEnd::Failed(m) => assert_eq!(m, "采集器异常退出"),
        _ => panic!("expected a failure"),
    }
}

#[test]
fn stopped_search_keeps_its_status() {
    let mut run = SearchRun::new();
    run.on_read_error("read failed".to_string());
    run.on_control_change();
    assert!(matches!(run.finish(false, "x"), SearchEnd::Stopped));
    assert_eq!(run.event_error, "read failed");
}

#[test]
fn website_crawls_and_counters() {
    assert!(!website_needs_crawl("  "));
    assert!(website_needs_crawl("shop.com"));
    let none = no_website_result();
    assert_eq!(none.status, "no_website");
    assert!(none.emails.is_empty());
    assert_eq!(enrichment_increment(&none), (1, 0, 0));
    let failed = WebsiteResult { status: "failed".to_string(), ..WebsiteResult::default() };
    assert_eq!(enrichment_increment(&failed), (1, 0, 1));
    let found = WebsiteResult {
        status: "completed".to_string(),
        emails: vec!["a@b.co".to_string(), "c@b.co".to_string()],
        ..WebsiteResult::default()
    };
    assert_eq!(enrichment_increment(&found), (1, 2, 0));
}
