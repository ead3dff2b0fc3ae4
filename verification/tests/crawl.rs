use mcp_nano::crawl::{CrawlAction, CrawlState};
use mcp_nano::weburl::WebUrl;

fn url(s: &str) -> WebUrl {
    WebUrl::parse(s).unwrap()
}

fn fetch_of(a: CrawlAction) -> (String, usize) {
    match a {
        CrawlAction::Fetch { url, depth } => (url, depth),
        other => panic!("expected a fetch, got {:?}", other),
    }
}

const DOCS_PAGE: &str = "<html><body>\
<a href=\"intro\">Intro</a>\
<a href=\"https://facebook.com/share\">Share</a>\
<a href=\"/other\">Other</a>\
<a href=\"intro#part\">Intro again</a>\
</body></html>";

#[test]
fn crawl_follows_in_scope_links_to_depth() {
    let start = url("https://example.com/docs/");
    let mut crawl = CrawlState::new(&start, 1, true, 10);
    assert_eq!(crawl.results(), vec!["https://example.com/docs".to_string()]);

    let (u, d) = fetch_of(crawl.next_action(0, false));
    assert_eq!((u.as_str(), d), ("https://example.com/docs/", 0));
    let found = crawl.record_page(&u, d, &url("https://example.com/docs/"), "text/html", DOCS_PAGE);
    assert_eq!(found, Some(("https://example.com/docs".to_string(), 1)));
    assert_eq!(
        crawl.results(),
        vec!["https://example.com/docs".to_string(), "https://example.com/docs/intro".to_string()]
    );

    let (u, d) = fetch_of(crawl.next_action(0, false));
    assert_eq!((u.as_str(), d), ("https://example.com/docs/intro", 1));
    let found = crawl.record_page(&u, d, &url("https://example.com/docs/intro"), "text/html", DOCS_PAGE);
    assert_eq!(found, Some(("https://example.com/docs/intro".to_string(), 2)));
    // At the crawl depth the page's links are not followed.
    assert_eq!(crawl.found_count(), 2);
    assert!(matches!(crawl.next_action(0, false), CrawlAction::Stop));
    assert_eq!(crawl.visited_count(), 2);
    assert_eq!(
        crawl.finish(false),
        Ok(vec!["https://example.com/docs".to_string(), "https://example.com/docs/intro".to_string()])
    );
}

#[test]
fn crawl_stops_at_page_limit() {
    let start = url("https://example.com/");
    let mut crawl = CrawlState::new(&start, 3, false, 1);
    let (u, d) = fetch_of(crawl.next_action(0, false));
    crawl.record_page(&u, d, &url("https://example.com/"), "text/html", "<a href=\"/a\">a</a><a href=\"/b\">b</a>");
    assert_eq!(crawl.found_count(), 3);
    assert!(matches!(crawl.next_action(0, false), CrawlAction::Stop));
    assert_eq!(crawl.visited_count(), 1);
}

#[test]
fn crawl_cancellation_stops_and_fails() {
    let start = url("https://example.com/");
    let mut crawl = CrawlState::new(&start, 1, true, 10);
    assert!(matches!(crawl.next_action(0, true), CrawlAction::Stop));
    assert_eq!(crawl.visited_count(), 0);
    assert_eq!(crawl.finish(true), Err("website crawl cancelled".to_string()));
}

#[test]
fn crawl_waits_for_fetches_before_sitemap_pages() {
    let start = url("https://example.com/docs/");
    let mut crawl = CrawlState::new(&start, 1, true, 10);
    crawl.enqueue_sitemap_urls(&vec![
        "https://example.com/docs/a".to_string(),
        "https://facebook.com/page".to_string(),
        "https://example.com/docs/a#top".to_string(),
        "https://example.com/blog".to_string(),
        "mailto:someone@example.com".to_string(),
    ]);
    assert_eq!(
        crawl.results(),
        vec!["https://example.com/docs".to_string(), "https://example.com/docs/a".to_string()]
    );
    let (u, _) = fetch_of(crawl.next_action(0, false));
    assert_eq!(u, "https://example.com/docs/");
    // The link queue is empty and a fetch is in flight: wait.
    assert!(matches!(crawl.next_action(1, false), CrawlAction::Wait));
    let (u, d) = fetch_of(crawl.next_action(0, false));
    assert_eq!((u.as_str(), d), ("https://example.com/docs/a", 0));
    assert!(matches!(crawl.next_action(0, false), CrawlAction::Stop));
}

#[test]
fn crawl_ignores_non_html_and_keeps_directory_base() {
    let start = url("https://example.com/guide/");
    let mut crawl = CrawlState::new(&start, 2, true, 10);
    let (u, d) = fetch_of(crawl.next_action(0, false));
    assert_eq!(crawl.record_page(&u, d, &url("https://example.com/guide/"), "application/pdf", "%PDF-1.4"), None);
    assert_eq!(crawl.found_count(), 1);
    // The server dropped the trailing slash: links still resolve under the directory.
    let found = crawl.record_page(&u, d, &url("https://example.com/guide"), "text/html", "<a href=\"step1\">s</a>");
    assert_eq!(found, Some(("https://example.com/guide".to_string(), 1)));
    let (u, d) = fetch_of(crawl.next_action(0, false));
    assert_eq!((u.as_str(), d), ("https://example.com/guide/step1", 1));
}
