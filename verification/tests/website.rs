use mcp_nano::pagetext::{is_html_response, simple_chunk};
use mcp_nano::scrape::{language_from_class, scrape_html};
use mcp_nano::sections::{assemble_sections, PageElement};
use mcp_nano::web::{is_ignored_domain, merge_small_chunks};

#[test]
fn simple_chunk_splits_on_whitespace_when_possible() {
    let text = "word ".repeat(2000);
    let chunks = simple_chunk(&text, 768, 50);
    assert!(chunks.len() > 1);
    let rejoined: String = chunks.concat();
    assert_eq!(rejoined, text);
    for c in &chunks {
        assert!(c.len() <= 768 * 4, "chunk over target: {}", c.len());
    }
}

#[test]
fn simple_chunk_multibyte_text_does_not_panic_or_lose_content() {
    let text = "日本語のテキスト。".repeat(1000);
    let chunks = simple_chunk(&text, 1, 0);
    assert!(chunks.len() > 1);
    let rejoined: String = chunks.concat();
    assert_eq!(rejoined, text);
}

#[test]
fn simple_chunk_emoji_does_not_panic() {
    let text = "🦀".repeat(5000);
    let chunks = simple_chunk(&text, 1, 0);
    assert!(chunks.len() > 1);
    assert_eq!(chunks.concat(), text);
}

#[test]
fn simple_chunk_short_text_passthrough() {
    assert_eq!(simple_chunk("hello world", 768, 50), vec!["hello world"]);
    assert_eq!(simple_chunk("anything", 0, 0), vec!["anything"]);
}

#[test]
fn simple_chunk_breaks_at_last_whitespace() {
    // Window of 4 bytes: "ab c" backs up to the space at byte 2.
    assert_eq!(simple_chunk("ab cdef", 1, 0), vec!["ab", " cde", "f"]);
}

#[test]
fn merge_small_chunks_keeps_passthrough_for_single_chunk() {
    let out = merge_small_chunks(vec!["short".to_string()], 512);
    assert_eq!(out.len(), 1);
    assert_eq!(out[0], "short");
}

#[test]
fn merge_small_chunks_combines_below_threshold() {
    let chunks: Vec<String> = (0..6).map(|i| format!("chunk-{i} with padding")).collect();
    let out = merge_small_chunks(chunks, 1);
    assert!(!out.is_empty(), "expected at least one merged chunk");
}

#[test]
fn merge_small_chunks_groups_until_threshold() {
    let chunks = vec!["aa".to_string(), "bb".to_string(), "cccc".to_string(), "d".to_string()];
    // Threshold 4 bytes: "aa\nbb" (5) closes the first group, "cccc" the second.
    let out = merge_small_chunks(chunks.clone(), 1);
    assert_eq!(out, vec!["aa\nbb", "cccc", "d"]);
    assert_eq!(out.join("\n"), chunks.join("\n"));
    assert!(merge_small_chunks(Vec::new(), 3).is_empty());
}

#[test]
fn ignored_domains_match_subdomains_case_insensitively() {
    assert!(is_ignored_domain("twitter.com"));
    assert!(is_ignored_domain("WWW.YouTube.com"));
    assert!(is_ignored_domain("mobile.x.com"));
    assert!(!is_ignored_domain("example.com"));
    assert!(!is_ignored_domain("notx.com"));
    assert!(is_ignored_domain("vk.\u{212A}om".replace('\u{212A}', "c").as_str()));
    assert!(is_ignored_domain("face\u{212A}ook.com".replace('\u{212A}', "b").as_str()));
    assert!(is_ignored_domain("faceboo\u{212A}.com"));
}

#[test]
fn html_detection_by_content_type_or_body() {
    assert!(is_html_response("text/html; charset=utf-8", ""));
    assert!(is_html_response("Application/XHTML+XML", ""));
    assert!(!is_html_response("application/json", "<html>"));
    let page = format!("   <!DOCTYPE html><html>{}</html>", "x".repeat(80));
    assert!(is_html_response("", &page));
    assert!(!is_html_response("", "<html>short</html>"));
}

#[test]
fn scrape_html_excludes_noise_and_does_not_duplicate_nested_text() {
    let html = r#"<html><head><title>Guide</title></head><body>
        <header><p>header noise</p></header><nav><p>nav noise</p></nav>
        <main><h1>Guide</h1><ul><li><p>keep once</p></li></ul>
        <pre><code class="language-python">print('hello')</code></pre></main>
        <footer><p>footer noise</p></footer></body></html>"#;
    let (_, sections) = scrape_html(html);
    let content = sections
        .iter()
        .map(|section| section.content.as_str())
        .collect::<String>();
    assert!(content.contains("keep once"));
    assert_eq!(content.matches("keep once").count(), 1);
    assert!(!content.contains("header noise"));
    assert!(!content.contains("nav noise"));
    assert!(!content.contains("footer noise"));
    assert_eq!(sections[0].code_blocks[0].language, "python");
}

#[test]
fn scrape_html_sections_follow_headings() {
    let html = r##"<html><head><title> Doc </title></head><body>
        <p>intro   text</p>
        <h1>Top</h1><p>one <a href=" /x ">link text</a> <a href="#">skip me</a></p>
        <h2>Sub</h2><h2>Empty</h2><p>two</p></body></html>"##;
    let (title, sections) = scrape_html(html);
    assert_eq!(title, "Doc");
    let paths: Vec<String> = sections.iter().map(|s| s.heading_path.join(" > ")).collect();
    assert_eq!(paths, vec!["Doc", "Top", "Top > Empty"]);
    assert_eq!(sections[0].content, "intro text");
    assert_eq!(sections[1].content, "one link text skip me");
    assert_eq!(sections[1].links.len(), 1);
    assert_eq!(sections[1].links[0].href, "/x");
    assert_eq!(sections[1].links[0].anchor_text, "link text");
}

#[test]
fn assemble_sections_from_elements() {
    let el = |tag: &str, text: &str| PageElement {
        tag: tag.to_string(),
        text: text.to_string(),
        in_noise: false,
        has_selected_descendant: false,
        code_language: String::new(),
        links: Vec::new(),
    };
    let mut noisy = el("p", "hidden");
    noisy.in_noise = true;
    let mut code = el("pre", "x = 1");
    code.code_language = "py".to_string();
    let sections = assemble_sections("T", &vec![el("h2", " B "), noisy, code, el("p", "  a \n b ")]);
    assert_eq!(sections.len(), 1);
    assert_eq!(sections[0].heading_path, vec!["B".to_string()]);
    assert_eq!(sections[0].content, "a b");
    assert_eq!(sections[0].code_blocks[0].raw, "x = 1");
    assert_eq!(sections[0].code_blocks[0].language, "py");
}

#[test]
fn language_from_class_takes_first_language_word() {
    assert_eq!(language_from_class("hljs language-rust other").as_deref(), Some("rust"));
    assert_eq!(language_from_class("language- x"), Some(String::new()));
    assert_eq!(language_from_class("lang-rust"), None);
}
