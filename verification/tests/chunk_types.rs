use mcp_nano::chunk_types::{
    format_param_types, format_params_typed, format_props_python, CodeChunkKind, Parameter,
    PythonFields,
};
use mcp_nano::code_chunk::{now_iso, split_oversized_code_chunks, CodeChunk};
use mcp_nano::normalize::{collapse_blank_lines, dedent, expand_tabs, normalize_code};

#[test]
fn normalize_collapses_blank_runs() {
    let src = "a\n\n\n\nb\n   \n\nc\n";
    let out = normalize_code(src);
    assert_eq!(out, "a\n\nb\n\nc");
}

#[test]
fn normalize_strips_trailing_whitespace() {
    let src = "a   \nb\t\n";
    let out = normalize_code(src);
    assert_eq!(out, "a\nb");
}

#[test]
fn normalize_all_blanks_returns_single_newline() {
    let src = "\n\n\n  \n\n";
    assert_eq!(normalize_code(src), "\n");
}

fn python_chunk(parameters: Vec<Parameter>) -> CodeChunk {
    CodeChunk {
        id: "x".into(),
        repo_name: "r".into(),
        file_name: "f.py".into(),
        code: "pass".into(),
        chunk_type: "function_definition".into(),
        dependencies: Vec::new(),
        created_at: now_iso(),
        kind: CodeChunkKind::Python(PythonFields {
            function_name: Some("describe".into()),
            class_name: None,
            parameters,
            return_type: Some("dict[str, object]".into()),
            decorators: vec!["@traced(\"sync\")".into()],
            is_method: false,
            is_async: false,
            is_generator: false,
            is_type_alias: false,
            properties: Vec::new(),
            alias_name: None,
            alias_target: None,
            type_parameters: None,
            bases: None,
        }),
    }
}

#[test]
fn python_chunk_embedding_text_lists_decorators_after_class_function() {
    let chunk = python_chunk(Vec::new());
    let t = chunk.chunk_embedding_text();
    assert!(t.contains("Function: describe"));
    assert!(t.contains("Return Type: dict[str, object]"));
    assert!(t.contains("Decorators: @traced(\"sync\")"));
    assert!(t.contains("Code:\n"));
}

#[test]
fn code_chunk_split_preserves_kind_and_metadata() {
    let chunk = CodeChunk::generic("orig", "r", "f.txt", &"x = 1\n".repeat(20));
    let split = chunk.split("new", "y = 2\n");
    assert_eq!(split.id, "new");
    assert_eq!(split.repo_name, "r");
    assert_eq!(split.file_name, "f.txt");
    assert!(matches!(split.kind, CodeChunkKind::Generic));
    assert_eq!(split.code, "y = 2");
}

#[test]
fn normalize_code_handles_crlf_and_blank_runs() {
    assert_eq!(normalize_code("foo\r\nbar\r\n"), "foo\nbar");
    assert_eq!(normalize_code("a\n\n\n\nb"), "a\n\nb");
    assert_eq!(normalize_code("a  \nb   "), "a\nb");
}

#[test]
fn python_param_types_keep_separator_entries() {
    let params = vec![
        Parameter::new("item", "Annotated[str, \"display\"]"),
        Parameter::new("/", "/"),
        Parameter::new("count", "int = 1"),
    ];
    assert_eq!(format_param_types(&params), r#"Annotated[str, "display"], /, int = 1"#);
}

#[test]
fn typed_params_render_type_then_name() {
    let params = vec![Parameter::new(" x ", " int "), Parameter::new("y", "  ")];
    assert_eq!(format_params_typed(&params), "int x, y");
    assert_eq!(format_props_python(&params), "x: int, y");
}

#[test]
fn generic_chunk_embedding_text_is_exact() {
    let mut chunk = CodeChunk::generic("id", "repo", "f.txt", "hello");
    assert_eq!(chunk.chunk_embedding_text(), "Repo Name: repo\nFile Name: f.txt\nCode:\nhello");
    chunk.dependencies = vec!["a".into(), "b".into()];
    assert_eq!(
        chunk.chunk_embedding_text(),
        "Repo Name: repo\nFile Name: f.txt\nCode:\nhello\nDependencies: a, b"
    );
    assert!(!chunk.is_file_remainder());
    chunk.chunk_type = "file_remainder".into();
    assert!(chunk.is_file_remainder());
}

#[test]
fn split_keeps_embedding_lines_of_the_payload() {
    let chunk = python_chunk(vec![Parameter::new("a", "int")]);
    let split = chunk.split("other", "return 1   \n");
    assert_eq!(split.kind_embedding_parts(), chunk.kind_embedding_parts());
    assert_eq!(split.code, "return 1");
    assert_eq!(split.created_at, chunk.created_at);
}

#[test]
fn whitespace_helpers_match_python_textwrap() {
    assert_eq!(expand_tabs("a\tb", 4), "a   b");
    assert_eq!(expand_tabs("ab\n\tc", 4), "ab\n    c");
    assert_eq!(dedent("    def foo():\n        return 1\n"), "def foo():\n    return 1\n");
    assert_eq!(collapse_blank_lines("a\n\n\n\nb"), "a\n\nb");
}

#[test]
fn generic_at_stamps_the_given_time() {
    let c = CodeChunk::generic_at("i", "r", "f.txt", "code", "2024-05-01T10:00:00Z");
    assert_eq!(c.created_at, "2024-05-01T10:00:00Z");
    assert_eq!(c.chunk_type, "generic");
    assert_eq!(c.code, "code");
    assert!(c.dependencies.is_empty());
}

#[test]
fn oversized_chunks_split_into_pieces_keeping_fields() {
    let a = CodeChunk::generic("keep", "r", "a.txt", "short");
    let b = CodeChunk::generic("big", "r", "b.txt", "one\ntwo");
    let pieces = vec![vec!["short".to_string()], vec!["one   \n".to_string(), "two".to_string()]];
    let out = split_oversized_code_chunks(vec![a, b], &pieces);
    assert_eq!(out.len(), 3);
    assert_eq!(out[0].id, "keep");
    assert_eq!(out[1].code, "one");
    assert_eq!(out[2].code, "two");
    assert_eq!(out[1].file_name, "b.txt");
    assert_eq!(out[1].id.len(), 36);
    assert_ne!(out[1].id, out[2].id);
    assert!(matches!(out[2].kind, CodeChunkKind::Generic));
}

fn assert_utc_stamp(s: &str) {
    let c: Vec<char> = s.chars().collect();
    let n = c.len();
    assert!(n >= 20, "{s}");
    let t = &c[n - 16..];
    let digits = [1usize, 2, 4, 5, 7, 8, 10, 11, 13, 14];
    for i in digits {
        assert!(t[i].is_ascii_digit(), "{s}");
    }
    assert_eq!((t[0], t[3], t[6], t[9], t[12], t[15]), ('-', '-', 'T', ':', ':', 'Z'));
    let year = &c[..n - 16];
    assert!(year.iter().all(|d| d.is_ascii_digit()) && year.len() == 4 || year.len() >= 5);
}

#[test]
fn now_iso_has_utc_stamp_shape() {
    assert_utc_stamp(&now_iso());
    assert_utc_stamp(&CodeChunk::generic("id", "repo", "f.txt", "x").created_at);
}

#[test]
fn normalized_lines_end_trimmed_and_keep_content() {
    let out = normalize_code("  a  \r\n\n\n\n b\t\n\u{a0}\nc ");
    assert_eq!(out, "  a\n\n b\n\nc");
    for line in out.split('\n') {
        assert_eq!(line, line.trim_end());
    }
    let kept: Vec<&str> = out.split('\n').filter(|l| !l.is_empty()).collect();
    assert_eq!(kept, vec!["  a", " b", "c"]);
}

#[test]
fn normalized_whitespace_only_is_single_newline() {
    assert_eq!(normalize_code(" \t\n \r\n\u{3000}"), "\n");
    assert_eq!(normalize_code(""), "\n");
    assert_ne!(normalize_code(" x "), "\n");
}
