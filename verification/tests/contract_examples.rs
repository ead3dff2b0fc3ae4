use mcp_nano::document::{upsert_metadatas, DocumentChunk, MetaValue};
use mcp_nano::filters::LengthMismatch;
use mcp_nano::pagetext::simple_chunk;
use mcp_nano::scrape::scrape_html;
use mcp_nano::spans::byte_slice_text;

#[test]
fn byte_slice_text_decodes_valid_slices_exactly() {
    let src = b"abcdef";
    assert_eq!(byte_slice_text(src, 0, 3), "abc");
    assert_eq!(byte_slice_text(src, 3, 3), "");
    assert_eq!(byte_slice_text(src, 4, 2), "");
    assert_eq!(byte_slice_text(src, 0, 100), "");
    assert_eq!(byte_slice_text(src, 50, 60), "");
    assert_eq!(byte_slice_text("héllo".as_bytes(), 0, 3), "hé");
    assert_eq!(byte_slice_text("héllo".as_bytes(), 0, 2), "h\u{fffd}");
}

#[test]
fn simple_chunk_pieces_fit_or_hold_one_character() {
    let text = "ab😀cd😀😀 efg hij klm nop qrs tuv wxyz ".repeat(5);
    let pieces = simple_chunk(&text, 1, 0);
    assert!(pieces.len() > 1);
    assert_eq!(pieces.concat(), text);
    for p in &pieces {
        assert!(!p.is_empty());
        assert!(p.len() <= 4 || p.chars().count() == 1, "{p:?}");
    }
}

#[test]
fn scraped_sections_have_the_documented_shape() {
    let html = r##"<html><head><title> Guide </title></head><body><main>
        <p>Intro text with <a href="#">skip</a> and <a href="/docs">the docs</a> and <a href="/x">go</a></p>
        <h1>Part</h1><h2>Sub</h2><p>  spaced   words  </p>
        <nav><p>nav noise</p></nav>
        <pre><code class="language-rust">fn main() {}</code></pre>
        </main></body></html>"##;
    let (title, sections) = scrape_html(html);
    assert_eq!(title, "Guide");
    assert!(!sections.is_empty());
    for s in &sections {
        assert!(!s.content.is_empty() || !s.code_blocks.is_empty());
        assert_eq!(s.content, s.content.trim());
        assert!(!s.heading_path.is_empty() && s.heading_path.len() <= 2);
        assert!(!s.content.contains("nav noise"));
        for l in &s.links {
            assert!(l.anchor_text.len() >= 4 && l.href != "#" && !l.href.is_empty());
        }
    }
    let links: Vec<_> = sections.iter().flat_map(|s| s.links.iter().map(|l| l.href.clone())).collect();
    assert_eq!(links, vec!["/docs".to_string()]);
}

#[test]
fn upsert_payloads_merge_extra_entries_after_the_chunk_fields() {
    let mut c = DocumentChunk::new("id-1", "a.md", "text", "md", 7);
    c.insert_metadata("group", MetaValue::Text("g".into()));
    let extra = vec![("collection".to_string(), MetaValue::Text("general".into()))];
    let metas = upsert_metadatas(&vec![c], &extra);
    assert_eq!(metas.len(), 1);
    let m = &metas[0];
    let keys: Vec<&str> = m.iter().map(|(k, _)| k.as_str()).collect();
    assert_eq!(keys, vec!["file_name", "doc_type", "chunk_index", "content", "created_at", "group", "collection"]);
    assert_eq!(m[2].1, MetaValue::Int(7));
    assert_eq!(m[6].1, MetaValue::Text("general".into()));
}

#[test]
fn length_mismatch_message_names_the_lengths() {
    let e = LengthMismatch { ids: 3, documents: 2, dense: 3, metadatas: 10 };
    assert_eq!(
        e.message(),
        "upsert_items: ids (3), documents (2), dense (3), metadatas (10): length mismatch"
    );
    assert!(e.message().contains("length mismatch"));
}
