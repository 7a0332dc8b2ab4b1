use web_archive::crawler::{BasicCrawler, CrawlSession};
use web_archive::html::HtmlRecord;

fn page(origin: &str, body: &str) -> HtmlRecord {
    HtmlRecord::with_timestamp(
        origin.to_string(),
        body.to_string(),
        "01-02-2024-10:20:30".to_string(),
    )
}

#[test]
fn a_crawl_without_budget_visits_nothing() {
    let mut session = CrawlSession::new("https://example.com", 0);
    assert_eq!(session.next_url(), None);
    session.fetched(&page("https://example.com", r#"<a href="/about">About</a>"#));
    session.skipped();
    session.archived("/tmp/x/index.html".to_string());
    assert_eq!(session.next_url(), None);
    assert_eq!(session.cursor, 0);
    assert_eq!(session.visited, vec!["https://example.com"]);
    assert!(session.into_paths().is_empty());
}

#[test]
fn the_frontier_takes_links_of_the_site_only() {
    let origin = "https://example.com";
    let body = r#"<a href="/about">About</a><a href="https://other.com">Ext</a>"#;
    let mut session = BasicCrawler::start(origin, 2);
    assert_eq!(session.next_url(), Some(origin.to_string()));
    BasicCrawler::visit(&mut session, Some(&page(origin, body)));
    assert_eq!(session.visited, vec!["https://example.com", "https://example.com/about"]);
    assert_eq!(session.next_url(), Some("https://example.com/about".to_string()));
    session.archived("a/index.html".to_string());
    BasicCrawler::visit(&mut session, Some(&page("https://example.com/about", body)));
    session.archived("b/index.html".to_string());
    assert_eq!(session.next_url(), None);
    assert!(!session.visited.iter().any(|u| u.contains("other.com")));
    assert_eq!(session.into_paths(), vec!["a/index.html", "b/index.html"]);
}

#[test]
fn a_crawl_stops_at_its_budget() {
    let mut session = CrawlSession::new("https://example.com/0", 3);
    let mut fetched = Vec::new();
    let mut n = 0;
    while let Some(url) = session.next_url() {
        fetched.push(url.clone());
        n += 1;
        let body = format!(
            r#"<a href="/{}">next</a><a href="/{}">skip</a><a href="/0">home</a>"#,
            2 * n,
            2 * n + 1
        );
        session.fetched(&page(&url, &body));
        session.archived(format!("{n}/index.html"));
    }
    assert_eq!(fetched, vec!["https://example.com/0", "https://example.com/2", "https://example.com/3"]);
    assert_eq!(session.cursor, 3);
    assert_eq!(session.into_paths().len(), 3);
}

#[test]
fn a_crawl_ends_when_the_frontier_is_empty() {
    let mut session = CrawlSession::new("https://example.com/", 10);
    let body = r#"<a href="/">home</a><a href="/a">a</a><a href="/a">a</a><a href="/">home</a>"#;
    let mut fetched = Vec::new();
    while let Some(url) = session.next_url() {
        fetched.push(url.clone());
        session.fetched(&page(&url, body));
    }
    assert_eq!(fetched, vec!["https://example.com/", "https://example.com/a"]);
    assert_eq!(session.visited, fetched);
    assert!(session.into_paths().is_empty());
}

#[test]
fn a_failed_fetch_is_skipped() {
    let mut session = CrawlSession::new("https://example.com/", 5);
    session.skipped();
    assert_eq!(session.cursor, 1);
    assert_eq!(session.next_url(), None);
    session.archived("never/index.html".to_string());
    assert!(session.paths.is_empty());
    let mut other = BasicCrawler::start("https://example.com/", 5);
    BasicCrawler::visit(&mut other, None);
    assert_eq!(other.next_url(), None);
}

#[test]
fn only_fetched_pages_are_archived_once() {
    let mut session = CrawlSession::new("https://example.com/", 5);
    session.archived("early/index.html".to_string());
    session.fetched(&page("https://example.com/", r#"<a href="/a">a</a>"#));
    session.archived("first/index.html".to_string());
    session.archived("again/index.html".to_string());
    session.skipped();
    session.archived("skipped/index.html".to_string());
    assert_eq!(session.into_paths(), vec!["first/index.html"]);
}
