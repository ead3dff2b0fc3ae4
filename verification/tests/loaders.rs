use mcp_nano::document::MetaValue;
use mcp_nano::loaders::{
    csv_chunks, join_leaf_texts, load_csv_bytes, load_html_text, load_json_bytes, load_odt_content,
    load_text_bytes, load_xml_bytes, loader_for, one_chunk, spreadsheet_chunks, LoaderKind,
};
use mcp_nano::weburl::gunzip;
use mcp_nano::xmltext::{extract_xml_text, parse_sitemap};

#[test]
fn parse_sitemap_reads_url_sets_and_indexes() {
    let urls = parse_sitemap(
        br#"<?xml version="1.0"?><urlset><url><loc>https://example.com/guide</loc></url></urlset>"#,
    );
    assert_eq!(urls, Some((false, vec!["https://example.com/guide".to_string()])));

    let index = parse_sitemap(
        br#"<?xml version="1.0"?><sitemapindex><sitemap><loc>https://example.com/pages.xml</loc></sitemap></sitemapindex>"#,
    );
    assert_eq!(index, Some((true, vec!["https://example.com/pages.xml".to_string()])));
}

#[test]
fn parse_sitemap_ignores_nested_image_locations() {
    let urls = parse_sitemap(
        br#"<urlset><url><loc>https://example.com/page</loc><image:image><image:loc>https://example.com/image.png</image:loc></image:image></url></urlset>"#,
    );
    assert_eq!(urls, Some((false, vec!["https://example.com/page".to_string()])));
}

#[test]
fn parse_sitemap_reads_feeds_and_rejects_empty_or_broken_documents() {
    let feed = parse_sitemap(br#"<rss><channel><item><link>https://example.com/post</link></item></channel></rss>"#);
    assert_eq!(feed, Some((false, vec!["https://example.com/post".to_string()])));
    assert_eq!(parse_sitemap(br#"<urlset></urlset>"#), None);
    assert_eq!(parse_sitemap(br#"<urlset><url><loc>https://a.b/</loc></url></oops>"#), None);
}

#[test]
fn xml_text_joins_trimmed_text_nodes() {
    assert_eq!(extract_xml_text(b"<root><a>hello</a><b>  world  </b></root>"), "hello world");
    assert_eq!(extract_xml_text(b"<root></root>"), "");
}

#[test]
fn load_xml_strips_tags() {
    let chunks = load_xml_bytes(b"<root><a>hello</a><b>world</b></root>", "data.xml");
    assert_eq!(chunks.len(), 1);
    assert!(chunks[0].content.contains("hello"));
    assert!(chunks[0].content.contains("world"));
    assert_eq!(chunks[0].content, "hello world");
    assert_eq!(chunks[0].doc_type, "xml");
    assert_eq!(chunks[0].file_name, "data.xml");
}

#[test]
fn load_text_reads_utf8_file() {
    let chunks = load_text_bytes(b"hello world", "foo.txt", "txt");
    assert_eq!(chunks.len(), 1);
    assert_eq!(chunks[0].content, "hello world");
    assert_eq!(chunks[0].doc_type, "txt");
    assert!(load_text_bytes(b"  \n ", "blank.txt", "txt").is_empty());
}

#[test]
fn load_csv_produces_one_chunk_per_row() {
    let chunks = load_csv_bytes(b"name,age\nAlice,30\nBob,40", "data.csv").unwrap();
    assert_eq!(chunks.len(), 2);
    assert!(chunks[0].content.contains("Alice"));
    assert!(chunks[1].content.contains("Bob"));
    assert_eq!(chunks[0].content, "row 1: \n0: name: Alice\n1: age: 30");
    assert_eq!(chunks[1].chunk_index, 1);
    assert_eq!(chunks[1].metadata, vec![("row".to_string(), MetaValue::Int(2))]);
    assert_eq!(chunks[0].doc_type, "csv");
}

#[test]
fn csv_rows_use_the_shorter_of_header_and_record() {
    let headers = vec!["a".to_string(), "b".to_string()];
    let rows = vec![vec!["1".to_string()], vec!["1".to_string(), "2".to_string(), "3".to_string()]];
    let chunks = csv_chunks("t.csv", &headers, &rows);
    assert_eq!(chunks[0].content, "row 1: \n0: a: 1");
    assert_eq!(chunks[1].content, "row 2: \n0: a: 1\n1: b: 2");
}

#[test]
fn load_json_pretty_prints() {
    let chunks = load_json_bytes(br#"{"a": 1, "b": 2}"#, "data.json");
    assert_eq!(chunks.len(), 1);
    assert!(chunks[0].content.contains("\"a\": 1"));
    assert_eq!(chunks[0].content, "{\n  \"a\": 1,\n  \"b\": 2\n}");
    let raw = load_json_bytes(b"not json", "bad.json");
    assert_eq!(raw[0].content, "\"not json\"");
}

#[test]
fn load_html_keeps_leaf_text_outside_noise() {
    let html = r#"<html><body><nav><p>menu</p></nav><main><h1>Title</h1><p> First  </p><aside><p>side</p></aside><p>Second</p></main></body></html>"#;
    let chunks = load_html_text(html, "page.html");
    assert_eq!(chunks.len(), 1);
    assert_eq!(chunks[0].content, "Title First Second");
    assert_eq!(chunks[0].doc_type, "html");
}

#[test]
fn leaf_texts_skip_noise_and_blanks() {
    let items = vec![
        (false, " a ".to_string()),
        (true, "hidden".to_string()),
        (false, "   ".to_string()),
        (false, "b".to_string()),
    ];
    assert_eq!(join_leaf_texts(&items), "a b");
}

#[test]
fn load_odt_reads_content_xml_text() {
    let chunks = load_odt_content(b"<office:document-content><text:p>Hi</text:p><text:p>there</text:p></office:document-content>", "f.odt");
    assert_eq!(chunks[0].content, "Hi there");
    assert_eq!(chunks[0].doc_type, "odt");
}

#[test]
fn spreadsheet_sheets_become_chunks() {
    let sheets = vec![
        ("One".to_string(), vec![vec!["a".to_string(), "1".to_string()], vec![String::new()]]),
        ("Two".to_string(), Vec::new()),
    ];
    let chunks = spreadsheet_chunks("book.xlsx", "xlsx", &sheets);
    assert_eq!(chunks.len(), 2);
    assert_eq!(chunks[0].content, "Sheet: One\na\t1\n\n");
    assert_eq!(chunks[1].content, "Sheet: Two\n");
    assert_eq!(chunks[1].chunk_index, 1);
    assert_eq!(chunks[0].metadata, vec![("sheet".to_string(), MetaValue::Text("One".into()))]);
}

#[test]
fn loader_is_chosen_by_lower_case_extension() {
    let p = loader_for("/tmp/Report.PDF");
    assert_eq!(p.kind, LoaderKind::Pdf);
    assert_eq!(p.file_name, "Report.PDF");
    assert_eq!(p.doc_type, "pdf");
    let t = loader_for("/tmp/notes");
    assert_eq!(t.kind, LoaderKind::Text);
    assert_eq!(t.doc_type, "txt");
    let md = loader_for("a/readme.md");
    assert_eq!((md.kind, md.doc_type.as_str()), (LoaderKind::Text, "md"));
    let x = loader_for("b.XLSX");
    assert_eq!((x.kind, x.doc_type.as_str()), (LoaderKind::Spreadsheet, "xlsx"));
    let other = loader_for("c.log");
    assert_eq!((other.kind, other.doc_type.as_str()), (LoaderKind::Text, "log"));
    assert_eq!(loader_for("d.doc").doc_type, "docx");
    assert_eq!(loader_for("/").file_name, "unknown");
}

#[test]
fn one_chunk_skips_blank_content() {
    assert!(one_chunk("f", "txt", "  \t\n".to_string()).is_empty());
    let c = one_chunk("f", "txt", " x ".to_string());
    assert_eq!(c[0].content, " x ");
    assert_eq!(c[0].id.len(), 36);
    assert_eq!(c[0].chunk_index, 0);
}

#[test]
fn gunzip_passes_plain_bodies_and_rejects_broken_gzip() {
    assert_eq!(gunzip(b"<urlset/>".to_vec()), Some(b"<urlset/>".to_vec()));
    assert_eq!(gunzip(vec![0x1f, 0x8b, 0x00]), None);
    let compressed: Vec<u8> = vec![
        0x1f, 0x8b, 0x08, 0x00, 0x00, 0x00, 0x00, 0x00, 0x00, 0x03, 0xcb, 0x48, 0xcd, 0xc9, 0xc9,
        0x07, 0x00, 0x86, 0xa6, 0x10, 0x36, 0x05, 0x00, 0x00, 0x00,
    ];
    assert_eq!(gunzip(compressed), Some(b"hello".to_vec()));
}
