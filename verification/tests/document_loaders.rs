use mcp_nano::document::DocumentChunk;
use mcp_nano::loaders::{
    load_csv_bytes, load_html_text, load_json_bytes, load_text_bytes, load_xml_bytes, loader_for,
    LoaderKind,
};

const SAMPLE_MD: &str = "# Markdown Sample\n\nSome intro text.\n\n- Bullet one\n- Bullet two\n";

const SAMPLE_CSV: &str = "name,age,city\nAlice,30,Paris\nBob,25,Berlin\nCharlie,35,Madrid\n";

const SAMPLE_JSON: &str =
    r#"{"title":"Sample JSON","items":[{"name":"alpha","value":1},{"name":"beta","value":2}]}"#;

const SAMPLE_XML: &str = r#"<?xml version="1.0" encoding="UTF-8"?>
<catalog>
  <title>Sample XML</title>
  <item>Alpha</item>
  <item>Beta</item>
  <item>Gamma</item>
</catalog>
"#;

const SAMPLE_HTML: &str = r#"<!DOCTYPE html>
<html>
<head>
  <title>Sample HTML</title>
  <style>body { margin: 0; }</style>
  <script>console.log("hidden");</script>
</head>
<body>
  <header><p>Skip me header</p></header>
  <nav><p>Skip me nav</p></nav>
  <main>
    <h1>Alpha Section</h1>
    <p>Body paragraph with <a href="https://example.com">a link</a> inside.</p>
  </main>
  <footer><p>Skip me footer</p></footer>
</body>
</html>
"#;

/// Loads a file's bytes with the loader its name selects.
fn load_document(path: &str, bytes: &[u8]) -> Vec<DocumentChunk> {
    let plan = loader_for(path);
    match plan.kind {
        LoaderKind::Csv => load_csv_bytes(bytes, &plan.file_name).unwrap(),
        LoaderKind::Json => load_json_bytes(bytes, &plan.file_name),
        LoaderKind::Xml => load_xml_bytes(bytes, &plan.file_name),
        LoaderKind::Html => {
            load_html_text(&String::from_utf8_lossy(bytes), &plan.file_name)
        }
        LoaderKind::Text => load_text_bytes(bytes, &plan.file_name, &plan.doc_type),
        _ => panic!("no loader for {path} here"),
    }
}

#[test]
fn loads_markdown_as_text() {
    let chunks = load_document("documents/sample.md", SAMPLE_MD.as_bytes());
    assert_eq!(chunks.len(), 1);
    assert_eq!(chunks[0].doc_type, "md");
    assert!(chunks[0].content.contains("Markdown Sample"));
    assert!(chunks[0].content.contains("Bullet one"));
}

#[test]
fn loads_csv_one_chunk_per_row() {
    let chunks = load_document("documents/sample.csv", SAMPLE_CSV.as_bytes());
    assert_eq!(chunks.len(), 3);
    assert!(chunks[0].content.contains("Alice"));
    assert!(chunks[1].content.contains("Bob"));
    assert!(chunks[2].content.contains("Charlie"));
    for (i, c) in chunks.iter().enumerate() {
        assert_eq!(c.doc_type, "csv");
        assert_eq!(c.chunk_index, i as i64);
    }
}

#[test]
fn loads_json_pretty_printed() {
    let chunks = load_document("documents/sample.json", SAMPLE_JSON.as_bytes());
    assert_eq!(chunks.len(), 1);
    assert_eq!(chunks[0].doc_type, "json");
    assert!(chunks[0].content.contains("\"title\""));
    assert!(chunks[0].content.contains("\"items\""));
    assert!(chunks[0].content.contains("\"alpha\""));
}

#[test]
fn loads_xml_returns_text() {
    let chunks = load_document("documents/sample.xml", SAMPLE_XML.as_bytes());
    assert_eq!(chunks.len(), 1);
    assert_eq!(chunks[0].doc_type, "xml");
    assert!(chunks[0].content.contains("Sample XML"));
    assert!(chunks[0].content.contains("Alpha"));
    assert!(chunks[0].content.contains("Gamma"));
}

#[test]
fn loads_html_with_noise_tags_stripped() {
    let chunks = load_document("documents/sample.html", SAMPLE_HTML.as_bytes());
    assert_eq!(chunks.len(), 1);
    assert_eq!(chunks[0].doc_type, "html");
    assert!(chunks[0].content.contains("Alpha Section"));
    assert!(chunks[0].content.contains("Body paragraph"));
    assert!(chunks[0].content.contains("a link"));
    assert!(!chunks[0].content.contains("Skip me"));
    assert!(!chunks[0].content.contains("console.log"));
    assert!(!chunks[0].content.contains("margin:"));
}

#[test]
fn json_text_that_is_not_json_is_stored_as_a_string_literal() {
    let chunks = load_document("notes.json", b"say \"hi\"\\\n\tnow\x01");
    assert_eq!(chunks.len(), 1);
    assert_eq!(chunks[0].content, "\"say \\\"hi\\\"\\\\\\n\\tnow\\u0001\"");
}
