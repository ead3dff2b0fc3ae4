use mcp_nano::dom::{read_dom, DomKind};
use mcp_nano::loaders::load_html_text;
use mcp_nano::pagelinks::{base_href, extract_navigation_links, extract_page_links};
use mcp_nano::scrape::{scrape_html, scrape_html_with_base};
use mcp_nano::weburl::WebUrl;

fn url(s: &str) -> WebUrl {
    WebUrl::parse(s).unwrap()
}

#[test]
fn dom_lists_nodes_in_document_order_with_depths() {
    let t = read_dom("<html><head><title>T</title></head><body><p class=\"x\">Hi</p></body></html>");
    assert_eq!(t[0].kind, DomKind::Other);
    assert_eq!(t[0].depth, 0);
    let names: Vec<&str> = t.iter().filter(|n| n.kind == DomKind::Element).map(|n| n.name.as_str()).collect();
    assert_eq!(names, vec!["html", "head", "title", "body", "p"]);
    let p = t.iter().find(|n| n.name == "p").unwrap();
    assert_eq!(p.attrs, vec![("class".to_string(), "x".to_string())]);
    assert_eq!(p.depth, 3);
    let text = t.iter().find(|n| n.kind == DomKind::Text && n.text == "Hi").unwrap();
    assert_eq!(text.depth, 4);
}

#[test]
fn scrape_title_is_first_title_trimmed() {
    let (title, sections) = scrape_html("<html><head><title>  Guide  </title></head><body><p>Body text</p></body></html>");
    assert_eq!(title, "Guide");
    assert_eq!(sections.len(), 1);
    assert_eq!(sections[0].heading_path, vec!["Guide".to_string()]);
    assert_eq!(sections[0].content, "Body text");
}

#[test]
fn scrape_with_base_resolves_section_links() {
    let html = "<html><body><p>See <a href=\"docs/intro\">the introduction</a> and <a href=\"#\">back up</a></p></body></html>";
    let (_, plain) = scrape_html(html);
    assert_eq!(plain[0].links.len(), 1);
    assert_eq!(plain[0].links[0].href, "docs/intro");
    let base = url("https://example.com/guide/");
    let (_, based) = scrape_html_with_base(html, Some(&base));
    assert_eq!(based[0].links[0].href, "https://example.com/guide/docs/intro");
    assert_eq!(based[0].links[0].anchor_text, "the introduction");
    assert_eq!(based[0].content, plain[0].content);
}

#[test]
fn base_href_overrides_the_document_url() {
    let t = read_dom("<html><head><base href=\"https://cdn.example.com/root/\"></head><body></body></html>");
    let b = base_href(&t, &url("https://example.com/page"));
    assert_eq!(b.href, "https://cdn.example.com/root/");
    let t2 = read_dom("<html><body><p>no base</p></body></html>");
    assert_eq!(base_href(&t2, &url("https://example.com/page")).href, "https://example.com/page");
}

#[test]
fn page_links_follow_base_area_and_rel_next() {
    let body = "<html><head><base href=\"https://example.com/docs/\"><link rel=\"Next\" href=\"p2\"></head><body><a href=\"a\">A</a><map><area href=\"b\"></map><div data-href=\"c\"></div><span>x</span></body></html>";
    let links = extract_page_links(body, &url("https://example.com/"), false, &url("https://example.com/"));
    assert_eq!(
        links,
        vec![
            "https://example.com/docs/p2".to_string(),
            "https://example.com/docs/a".to_string(),
            "https://example.com/docs/b".to_string(),
            "https://example.com/docs/c".to_string(),
        ]
    );
}

#[test]
fn navigation_links_need_a_navigation_ancestor() {
    let html = "<html><body><div role=\"navigation\"><a href=\"/one\">First page</a></div><div data-nav><a href=\"/two\">Second page</a></div><p><a href=\"/three\">Third page</a></p></body></html>";
    let links = extract_navigation_links(html, &url("https://example.com/"));
    let hrefs: Vec<&str> = links.iter().map(|l| l.href.as_str()).collect();
    assert_eq!(hrefs, vec!["https://example.com/one", "https://example.com/two"]);
}

#[test]
fn html_loader_skips_chrome_and_keeps_leaf_text() {
    let html = "<html><body><nav><p>menu</p></nav><main><h1>Title</h1><p>Para one</p><aside><p>side</p></aside><p>Para two</p></main></body></html>";
    let chunks = load_html_text(html, "page.html");
    assert_eq!(chunks.len(), 1);
    assert_eq!(chunks[0].content, "Title Para one Para two");
}
