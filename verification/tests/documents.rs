use mcp_nano::chunk_types::{CodeChunkKind, Parameter, PythonFields, SqlFields};
use mcp_nano::code_chunk::{now_iso, CodeChunk};
use mcp_nano::document::{
    build_base_metadata, code_chunks_to_document_chunks, decimal_string, enforce_max_chunk_chars,
    split_document_chunks, DocumentChunk, EmbeddingOptions, MetaValue, MAX_CHUNK_CHARS,
};

fn text_of<'a>(m: &'a [(String, String)], key: &str) -> Option<&'a str> {
    m.iter().rev().find(|(k, _)| k == key).map(|(_, v)| v.as_str())
}

fn value_of<'a>(m: &'a [(String, MetaValue)], key: &str) -> Option<&'a MetaValue> {
    m.iter().rev().find(|(k, _)| k == key).map(|(_, v)| v)
}

#[test]
fn generic_chunk_metadata_includes_base_fields() {
    let c = CodeChunk::generic("id-1", "repo", "f.txt", "hello");
    let m = c.chunk_metadata();
    assert_eq!(text_of(&m, "repo_name"), Some("repo"));
    assert_eq!(text_of(&m, "file_name"), Some("f.txt"));
    assert_eq!(text_of(&m, "type"), Some("generic"));
    assert_eq!(text_of(&m, "code"), Some("hello"));
    assert!(text_of(&m, "created_at").is_some());
    assert_eq!(m.len(), 6);
}

#[test]
fn python_chunk_metadata_uses_param_types_only() {
    let chunk = CodeChunk {
        id: "x".into(),
        repo_name: "r".into(),
        file_name: "f.py".into(),
        code: "pass".into(),
        chunk_type: "function_definition".into(),
        dependencies: Vec::new(),
        created_at: now_iso(),
        kind: CodeChunkKind::Python(PythonFields {
            function_name: Some("describe".into()),
            class_name: None,
            parameters: vec![
                Parameter::new("item", "Annotated[str, \"display\"]"),
                Parameter::new("/", "/"),
                Parameter::new("count", "int = 1"),
            ],
            return_type: Some("dict[str, object]".into()),
            decorators: vec!["@traced(\"sync\")".into()],
            is_method: false,
            is_async: false,
            is_generator: false,
            is_type_alias: false,
            properties: Vec::new(),
            alias_name: None,
            alias_target: None,
            type_parameters: None,
            bases: None,
        }),
    };
    let m = chunk.chunk_metadata();
    let expected_params = r#"Annotated[str, "display"], /, int = 1"#;
    assert_eq!(text_of(&m, "parameters"), Some(expected_params));
    assert_eq!(text_of(&m, "decorators"), Some("@traced(\"sync\")"));
    assert_eq!(text_of(&m, "class_name"), Some(""));
    assert_eq!(text_of(&m, "is_async"), Some("false"));
}

#[test]
fn sql_chunk_metadata_lists_names_after_base_fields() {
    let mut c = CodeChunk::generic("id", "repo", "f.sql", "CREATE TABLE t (id int)");
    c.dependencies = vec!["a".to_string(), "b".to_string()];
    c.kind = CodeChunkKind::Sql(SqlFields {
        statement_type: Some("CREATE TABLE".into()),
        object_name: Some("t".into()),
        schema_name: None,
        database_name: Some("db".into()),
    });
    let m = c.chunk_metadata();
    let keys: Vec<&str> = m.iter().map(|(k, _)| k.as_str()).collect();
    assert_eq!(
        keys,
        vec![
            "repo_name", "file_name", "type", "code", "dependencies", "created_at",
            "statement_type", "object_name", "schema_name", "database_name"
        ]
    );
    assert_eq!(text_of(&m, "dependencies"), Some("a, b"));
    assert_eq!(text_of(&m, "schema_name"), Some(""));
    assert_eq!(text_of(&m, "database_name"), Some("db"));
}

#[test]
fn document_chunk_metadata_merges_user_metadata() {
    let mut c = DocumentChunk::new("id", "f.pdf", "text", "pdf", 0);
    c.page = Some(3);
    c.insert_metadata("group", MetaValue::Text("docs".into()));
    let m = c.chunk_metadata();
    assert_eq!(value_of(&m, "file_name"), Some(&MetaValue::Text("f.pdf".into())));
    assert_eq!(value_of(&m, "doc_type"), Some(&MetaValue::Text("pdf".into())));
    assert_eq!(value_of(&m, "chunk_index"), Some(&MetaValue::Int(0)));
    assert_eq!(value_of(&m, "page"), Some(&MetaValue::Int(3)));
    assert_eq!(value_of(&m, "group"), Some(&MetaValue::Text("docs".into())));
}

#[test]
fn insert_metadata_replaces_existing_keys() {
    let mut c = DocumentChunk::new("id", "f.csv", "row", "csv", 0);
    c.insert_metadata("row", MetaValue::Int(1));
    c.insert_metadata("sheet", MetaValue::Text("a".into()));
    c.insert_metadata("row", MetaValue::Int(2));
    assert_eq!(
        c.metadata,
        vec![
            ("row".to_string(), MetaValue::Int(2)),
            ("sheet".to_string(), MetaValue::Text("a".into()))
        ]
    );
}

#[test]
fn document_chunk_embedding_text_includes_page_when_present() {
    let mut c = DocumentChunk::new("id", "f.pdf", "body", "pdf", 2);
    c.page = Some(5);
    let t = c.chunk_embedding_text();
    assert!(t.contains("File_name: f.pdf"));
    assert!(t.contains("Type: pdf"));
    assert!(t.contains("Page: 5"));
    assert!(t.contains("Content:\nbody"));
    assert_eq!(t, "File_name: f.pdf\nType: pdf\nPage: 5\nContent:\nbody");
}

#[test]
fn document_chunk_embedding_text_omits_page_when_absent() {
    let c = DocumentChunk::new("id", "f.txt", "body", "txt", 0);
    let t = c.chunk_embedding_text();
    assert!(!t.contains("Page:"));
    assert_eq!(t, "File_name: f.txt\nType: txt\nContent:\nbody");
}

#[test]
fn decimal_string_matches_to_string() {
    for n in [0i64, 7, 10, 12345, -1, -908, i64::MAX, i64::MIN] {
        assert_eq!(decimal_string(n), n.to_string());
    }
}

#[test]
fn code_documents_have_sequential_chunk_indexes() {
    let chunks = vec![
        CodeChunk::generic("one", "repo", "file.txt", "first"),
        CodeChunk::generic("two", "repo", "file.TXT", "second"),
        CodeChunk::generic("three", "repo", "Makefile", "third"),
    ];
    let documents = code_chunks_to_document_chunks(chunks);
    assert_eq!(documents[0].chunk_index, 0);
    assert_eq!(documents[1].chunk_index, 1);
    assert_eq!(documents[2].chunk_index, 2);
    assert_eq!(documents[0].id, "one");
    assert_eq!(documents[0].content, "first");
    assert_eq!(documents[1].doc_type, "txt");
    assert_eq!(documents[2].doc_type, "txt");
    assert!(documents[0].page.is_none());
    assert_eq!(
        value_of(&documents[0].metadata, "repo_name"),
        Some(&MetaValue::Text("repo".into()))
    );
    assert_eq!(documents[0].metadata.len(), 6);
}

#[test]
fn enforce_max_chunk_chars_splits_only_oversized_chunks() {
    let small = DocumentChunk::new("small", "a.txt", "short", "txt", 4);
    let big_text = "x".repeat(MAX_CHUNK_CHARS * 2 + 10);
    let mut big = DocumentChunk::new("big", "b.txt", &big_text, "txt", 10);
    big.insert_metadata("row", MetaValue::Int(1));
    let out = enforce_max_chunk_chars(vec![small.clone(), big]);
    assert_eq!(out.len(), 4);
    assert_eq!(out[0], small);
    assert_eq!(out[1].content.chars().count(), MAX_CHUNK_CHARS);
    assert_eq!(out[3].content.chars().count(), 10);
    assert_eq!(out[1].chunk_index, 10);
    assert_eq!(out[3].chunk_index, 12);
    assert_ne!(out[1].id, "big");
    assert_eq!(out[1].id.len(), 36);
    assert_eq!(out[2].metadata, vec![("row".to_string(), MetaValue::Int(1))]);
    let rejoined: String = out[1..].iter().map(|c| c.content.as_str()).collect();
    assert_eq!(rejoined, big_text);
}

#[test]
fn split_document_chunks_uses_parts_and_caps_each() {
    let a = DocumentChunk::new("a", "a.md", "one two three", "md", 0);
    let b = DocumentChunk::new("b", "b.md", "untouched", "md", 7);
    let long_part = "y".repeat(MAX_CHUNK_CHARS + 1);
    let parts = vec![vec!["one".to_string(), long_part.clone()], Vec::new()];
    let out = split_document_chunks(vec![a, b], &parts);
    assert_eq!(out.len(), 4);
    assert_eq!(out[0].content, "one");
    assert_eq!(out[1].content.chars().count(), MAX_CHUNK_CHARS);
    assert_eq!(out[2].content, "y");
    assert_eq!(out[3].content, "untouched");
    assert_eq!(
        out.iter().map(|c| c.chunk_index).collect::<Vec<_>>(),
        vec![0, 1, 2, 7]
    );
    assert!(out.iter().all(|c| c.id.len() == 36));
}

#[test]
fn split_document_chunks_caps_huge_minified_blob() {
    let huge = "a".repeat(900_000);
    let chunk = DocumentChunk::new("id1", "chart.umd.min.js.map", &huge, "map", 0);
    let split = split_document_chunks(vec![chunk], &vec![Vec::new()]);
    assert!(!split.is_empty());
    let max_chars = split.iter().map(|c| c.content.chars().count()).max().unwrap_or(0);
    assert!(max_chars <= MAX_CHUNK_CHARS);
    let total: usize = split.iter().map(|c| c.content.len()).sum();
    assert!(total >= 900_000 - 100, "lost content during split: {total}");
    assert_eq!(total, 900_000);
}

#[test]
fn build_base_metadata_includes_required_fields() {
    let opts = EmbeddingOptions {
        collection: Some("general".to_string()),
        repo_name: None,
        group: Some("docs".to_string()),
        metadata: Some(vec![("source".to_string(), MetaValue::Text("manual".into()))]),
    };
    let meta = build_base_metadata("notes.txt", "txt", None, &opts);
    assert_eq!(value_of(&meta, "file_name"), Some(&MetaValue::Text("notes.txt".into())));
    assert_eq!(value_of(&meta, "doc_type"), Some(&MetaValue::Text("txt".into())));
    assert_eq!(value_of(&meta, "group"), Some(&MetaValue::Text("docs".into())));
    assert_eq!(value_of(&meta, "source"), Some(&MetaValue::Text("manual".into())));
    assert!(value_of(&meta, "created_at").is_some());
    assert!(value_of(&meta, "repo_name").is_none());
}

#[test]
fn build_base_metadata_includes_repo_name_for_code() {
    let opts = EmbeddingOptions {
        collection: Some("codebase".to_string()),
        repo_name: Some("my_repo".to_string()),
        group: None,
        metadata: None,
    };
    let meta = build_base_metadata("main.py", "py", Some("my_repo"), &opts);
    assert_eq!(value_of(&meta, "repo_name"), Some(&MetaValue::Text("my_repo".into())));
    assert_eq!(meta.last().map(|(k, _)| k.as_str()), Some("created_at"));
}
