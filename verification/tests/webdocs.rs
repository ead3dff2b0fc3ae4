use mcp_nano::document::{DocumentChunk, MetaValue};
use mcp_nano::web::{CodeBlock, Link, WebSection};
use mcp_nano::webdocs::{page_text_of, website_page_chunks};

const URL: &str = "https://a.dev/page";

fn sections() -> Vec<WebSection> {
    vec![
        WebSection {
            heading_path: vec!["Intro".to_string()],
            content: "Hello world about Rust".to_string(),
            code_blocks: vec![CodeBlock { raw: "fn main() {}".to_string(), language: "rust".to_string() }],
            links: vec![Link { href: "https://a.dev/x".to_string(), anchor_text: "Rust".to_string() }],
        },
        WebSection {
            heading_path: vec![],
            content: "More text".to_string(),
            code_blocks: vec![CodeBlock { raw: "ls -la".to_string(), language: String::new() }],
            links: vec![],
        },
    ]
}

fn nav() -> Vec<Link> {
    vec![
        Link { href: "https://a.dev/home".to_string(), anchor_text: "Home".to_string() },
        Link { href: "https://a.dev/other".to_string(), anchor_text: "Rust".to_string() },
    ]
}

fn meta<'a>(c: &'a DocumentChunk, key: &str) -> Option<&'a MetaValue> {
    c.metadata.iter().find(|(k, _)| k == key).map(|(_, v)| v)
}

fn text(c: &DocumentChunk, key: &str) -> String {
    match meta(c, key) {
        Some(MetaValue::Text(s)) => s.clone(),
        other => panic!("expected text under {key}, got {other:?}"),
    }
}

fn json(c: &DocumentChunk, key: &str) -> String {
    match meta(c, key) {
        Some(MetaValue::Json(s)) => s.clone(),
        other => panic!("expected JSON under {key}, got {other:?}"),
    }
}

fn page() -> Vec<DocumentChunk> {
    let secs = sections();
    let pieces = vec!["Intro\nHello world about Rust".to_string(), "More text".to_string()];
    let metadata = vec![("group".to_string(), MetaValue::Text("docs".to_string()))];
    website_page_chunks(URL, "Page Title", &secs, &nav(), &metadata, "2024-01-01T00:00:00Z", Some(pieces), 768, 50)
}

#[test]
fn page_text_joins_heading_paths_and_content() {
    assert_eq!(page_text_of(&sections()), "Intro\nHello world about Rust\nMore text");
}

#[test]
fn page_chunks_are_prose_then_code_in_order() {
    let chunks = page();
    assert_eq!(chunks.len(), 3);
    assert_eq!(chunks[0].content, "Intro\nHello world about Rust\nMore text");
    assert_eq!(chunks[1].content, "fn main() {}");
    assert_eq!(chunks[2].content, "ls -la");
    for (i, c) in chunks.iter().enumerate() {
        assert_eq!(c.chunk_index, i as i64);
        assert_eq!(c.file_name, URL);
        assert_eq!(c.doc_type, "website");
        assert_eq!(c.page, None);
        assert_eq!(c.id.len(), 36);
        assert_eq!(meta(c, "total_chunks"), Some(&MetaValue::Int(3)));
        assert_eq!(text(c, "url"), URL);
        assert_eq!(text(c, "group"), "docs");
        assert_eq!(text(c, "page_title"), "Page Title");
        assert_eq!(text(c, "embedded_at"), "2024-01-01T00:00:00Z");
    }
    assert_eq!(text(&chunks[0], "content_type"), "prose");
    assert_eq!(text(&chunks[0], "heading_path"), "Page Title");
    assert_eq!(text(&chunks[1], "content_type"), "code");
    assert_eq!(text(&chunks[1], "heading_path"), "Intro");
    assert_eq!(text(&chunks[1], "language"), "rust");
    assert_eq!(text(&chunks[2], "heading_path"), "");
    assert!(meta(&chunks[2], "language").is_none());
}

#[test]
fn page_chunks_link_their_neighbours() {
    let chunks = page();
    assert_eq!(json(&chunks[0], "prev_chunk_id"), "null");
    assert_eq!(text(&chunks[0], "next_chunk_id"), chunks[1].id);
    assert_eq!(text(&chunks[1], "prev_chunk_id"), chunks[0].id);
    assert_eq!(text(&chunks[1], "next_chunk_id"), chunks[2].id);
    assert_eq!(text(&chunks[2], "prev_chunk_id"), chunks[1].id);
    assert_eq!(json(&chunks[2], "next_chunk_id"), "null");
}

#[test]
fn page_chunks_carry_hash_page_id_and_key() {
    let chunks = page();
    assert_eq!(text(&chunks[1], "chunk_hash"), "ef32637cb9c3ec2e");
    assert_eq!(text(&chunks[0], "chunk_hash"), "7c683e4cfa607c50");
    assert_eq!(text(&chunks[0], "page_id"), "a3c266c4-1517-52ed-8ad6-245a0ee2137e");
    assert_eq!(
        text(&chunks[0], "website_key"),
        "[\"https://a.dev/page\",\"docs\",\"2024-01-01T00:00:00Z\"]"
    );
    assert_eq!(
        json(&chunks[0], "navigation_links"),
        "[{\"anchor_text\":\"Home\",\"href\":\"https://a.dev/home\"},{\"anchor_text\":\"Rust\",\"href\":\"https://a.dev/other\"}]"
    );
}

#[test]
fn page_links_match_mentioned_anchors_first_href_wins() {
    let chunks = page();
    assert_eq!(json(&chunks[0], "links"), "[{\"anchor_text\":\"Rust\",\"href\":\"https://a.dev/x\"}]");
    assert_eq!(json(&chunks[2], "links"), "[]");
}

#[test]
fn page_without_sections_gives_nothing() {
    let chunks = website_page_chunks(URL, "T", &vec![], &nav(), &vec![], "now", None, 768, 50);
    assert!(chunks.is_empty());
}

#[test]
fn page_without_pieces_uses_simple_windows() {
    let secs = vec![WebSection {
        heading_path: vec![],
        content: "short".to_string(),
        code_blocks: vec![],
        links: vec![],
    }];
    let chunks = website_page_chunks(URL, "T", &secs, &vec![], &vec![], "now", None, 768, 50);
    assert_eq!(chunks.len(), 1);
    assert_eq!(chunks[0].content, "short");
    assert_eq!(text(&chunks[0], "website_key"), "[\"https://a.dev/page\",\"default\",\"now\"]");
}

fn is_uuid_v4(s: &str) -> bool {
    let c: Vec<char> = s.chars().collect();
    c.len() == 36
        && c.iter().enumerate().all(|(i, ch)| {
            if [8, 13, 18, 23].contains(&i) { *ch == '-' } else { ch.is_ascii_digit() || ('a'..='f').contains(ch) }
        })
        && c[14] == '4'
}

#[test]
fn page_chunks_get_fresh_v4_ids_and_utc_stamps() {
    let chunks = page();
    assert!(chunks.len() >= 2);
    for c in &chunks {
        assert!(is_uuid_v4(&c.id), "{}", c.id);
        assert!(c.created_at.ends_with('Z') && c.created_at.len() >= 20, "{}", c.created_at);
    }
    let ids: std::collections::HashSet<_> = chunks.iter().map(|c| c.id.clone()).collect();
    assert_eq!(ids.len(), chunks.len());
}
