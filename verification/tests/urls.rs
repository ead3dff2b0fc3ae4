use mcp_nano::pagelinks::{
    extract_navigation_links, extract_page_links, links_from_hrefs, sitemap_urls_from_html,
};
use mcp_nano::weburl::{
    canonical_url, normalize_url, normalize_website_url, origin_url, plain_text_sitemap_urls,
    same_scope, sitemap_seed_urls, sitemap_urls_from_robots, WebUrl, WebsiteUrlError,
};

fn url(s: &str) -> WebUrl {
    WebUrl::parse(s).unwrap()
}

#[test]
fn normalize_website_url_adds_https_to_bare_domains() {
    assert_eq!(normalize_website_url("www.google.com").unwrap(), "https://www.google.com/");
    assert_eq!(
        normalize_website_url("google.com/search?q=rust").unwrap(),
        "https://google.com/search?q=rust"
    );
}

#[test]
fn normalize_website_url_preserves_http_and_rejects_invalid_schemes() {
    assert_eq!(
        normalize_website_url("http://localhost:3000/docs").unwrap(),
        "http://localhost:3000/docs"
    );
    assert!(normalize_website_url("ftp://example.com").is_err());
    assert!(normalize_website_url("   ").is_err());
}

#[test]
fn normalize_website_url_error_kinds() {
    assert_eq!(normalize_website_url(" \t"), Err(WebsiteUrlError::Empty));
    assert_eq!(
        normalize_website_url("ftp://example.com"),
        Err(WebsiteUrlError::UnsupportedScheme("ftp".to_string()))
    );
    assert!(matches!(
        normalize_website_url("http://[::1"),
        Err(WebsiteUrlError::Invalid(given, _)) if given == "http://[::1"
    ));
    assert_eq!(normalize_website_url("//example.com/a").unwrap(), "https://example.com/a");
}

#[test]
fn normalize_url_joins_relative_against_directory_base() {
    let base = url("https://gojs.net/latest/api/");
    assert_eq!(
        normalize_url("symbols/Adornment.html", &base).as_deref(),
        Some("https://gojs.net/latest/api/symbols/Adornment.html")
    );
}

#[test]
fn normalize_url_strips_fragment_and_preserves_trailing_slash() {
    let base = url("https://example.com/docs/");
    assert_eq!(
        normalize_url("page#section", &base).as_deref(),
        Some("https://example.com/docs/page")
    );
    assert_eq!(
        normalize_url("../other/", &base).as_deref(),
        Some("https://example.com/other/")
    );
}

#[test]
fn normalize_url_rejects_non_http() {
    let base = url("https://example.com/");
    assert!(normalize_url("mailto:a@b.com", &base).is_none());
    assert!(normalize_url("javascript:void(0)", &base).is_none());
}

#[test]
fn normalize_url_absolute_path_from_directory() {
    let base = url("https://example.com/base");
    assert_eq!(
        normalize_url("/page#section", &base).as_deref(),
        Some("https://example.com/page")
    );
}

#[test]
fn robots_discovers_multiple_relative_and_absolute_sitemaps() {
    let base = url("https://example.com/docs/");
    let urls = sitemap_urls_from_robots(
        b"Sitemap: /sitemap.xml\n sitemap: https://cdn.example.com/docs.xml\n",
        &base,
    );
    assert_eq!(
        urls.iter().map(|u| u.href.as_str()).collect::<Vec<_>>(),
        vec!["https://example.com/sitemap.xml", "https://cdn.example.com/docs.xml"]
    );
}

#[test]
fn robots_ignores_comments_other_keys_and_empty_values() {
    let base = url("https://example.com/");
    let urls = sitemap_urls_from_robots(
        b"# Sitemap: /hidden.xml\r\nUser-agent: *\r\nSitemap:\r\nSITEMAP: /a.xml # main\r\n",
        &base,
    );
    assert_eq!(
        urls.iter().map(|u| u.href.as_str()).collect::<Vec<_>>(),
        vec!["https://example.com/a.xml"]
    );
}

#[test]
fn navigation_links_are_absolute_and_deduplicated() {
    let base = url("https://example.com/docs/page/");
    let links = extract_navigation_links(
        r#"<nav><a href="../guide/">Guide</a><a href="../guide/">Guide</a></nav><main><p>Body</p></main>"#,
        &base,
    );
    assert_eq!(links.len(), 1);
    assert_eq!(links[0].href, "https://example.com/docs/guide/");
    assert_eq!(links[0].anchor_text, "Guide");
}

#[test]
fn same_scope_stays_under_starting_path() {
    let start = url("https://neo4j.com/docs/");
    assert!(same_scope(&url("https://neo4j.com/docs/getting-started/"), &start));
    assert!(same_scope(&url("https://neo4j.com/docs"), &start));
    assert!(!same_scope(&url("https://neo4j.com/blog/"), &start));
    assert!(!same_scope(&url("https://docs.neo4j.com/docs/"), &start));
    assert!(same_scope(&url("https://NEO4J.com/docs/x"), &start));
    assert!(!same_scope(&url("https://neo4j.com:8443/docs/"), &start));
    assert!(!same_scope(&url("https://neo4j.com/docsx"), &start));
}

#[test]
fn canonical_url_drops_fragment_and_trailing_slashes() {
    assert_eq!(canonical_url(&url("https://example.com/a/b/#top")), "https://example.com/a/b");
    assert_eq!(canonical_url(&url("https://example.com/")), "https://example.com");
    assert_eq!(canonical_url(&url("https://example.com/a?x=1#f")), "https://example.com/a?x=1");
}

#[test]
fn origin_and_seed_urls() {
    let start = url("https://example.com/docs/guide/?q=1#x");
    assert_eq!(origin_url(&start).href, "https://example.com/");
    let seeds = sitemap_seed_urls(&start);
    assert_eq!(
        seeds.iter().map(|u| u.href.as_str()).collect::<Vec<_>>(),
        vec![
            "https://example.com/sitemap.xml",
            "https://example.com/sitemap_index.xml",
            "https://example.com/docs/guide/sitemap.xml",
            "https://example.com/docs/guide/sitemap_index.xml",
        ]
    );
    let root_seeds = sitemap_seed_urls(&url("https://example.com/"));
    assert_eq!(root_seeds.len(), 2);
}

#[test]
fn plain_text_sitemap_lists_canonical_urls() {
    let base = url("https://example.com/sitemaps/list.txt");
    let urls = plain_text_sitemap_urls(
        b"https://example.com/a/\n\n  page.html#frag  \nmailto:x@y.z\r\n",
        &base,
    );
    assert_eq!(urls, vec!["https://example.com/a", "https://example.com/sitemaps/page.html"]);
}

#[test]
fn page_links_follow_base_scope_and_ignored_domains() {
    let body = r#"<html><head><base href="/docs/"></head><body>
        <a href="intro">Intro</a>
        <a href="https://twitter.com/x">Tweet</a>
        <div data-href="../blog/post">Post</div>
        <a href="mailto:a@b.c">Mail</a>
        </body></html>"#;
    let page = url("https://example.com/other/page.html");
    let start = url("https://example.com/docs/");
    let all = extract_page_links(body, &page, false, &start);
    assert_eq!(all, vec!["https://example.com/docs/intro", "https://example.com/blog/post"]);
    let scoped = extract_page_links(body, &page, true, &start);
    assert_eq!(scoped, vec!["https://example.com/docs/intro"]);
}

#[test]
fn links_from_hrefs_skips_missing_values() {
    let base = url("https://example.com/");
    let start = url("https://example.com/");
    let hrefs = vec![None, Some("a".to_string()), Some("https://youtube.com/v".to_string())];
    assert_eq!(
        links_from_hrefs(&hrefs, &base, true, &start),
        vec!["https://example.com/a"]
    );
}

#[test]
fn html_sitemap_links_need_sitemap_rel() {
    let html = r#"<head><link rel="alternate sitemap" href="/map.xml"><link rel="stylesheet" href="/s.css"><link rel="SITEMAP" href="https://cdn.example.com/m.xml"></head>"#;
    let base = url("https://example.com/docs/");
    let urls = sitemap_urls_from_html(html, &base);
    assert_eq!(
        urls.iter().map(|u| u.href.as_str()).collect::<Vec<_>>(),
        vec!["https://example.com/map.xml", "https://cdn.example.com/m.xml"]
    );
}
