use mcp_nano::code_chunk::CodeChunk;
use mcp_nano::chunk_types::CodeChunkKind;
use mcp_nano::languages::{
    decode_file_text, decode_utf16, detect_encoding, is_code_file, language_for_extension,
    path_extension_of, path_file_name, Language,
};

#[test]
fn detect_encoding_handles_bom() {
    assert_eq!(detect_encoding(&[0xef, 0xbb, 0xbf, b'x']), "utf-8");
    assert_eq!(detect_encoding(&[0xff, 0xfe, 0x00, 0x00]), "utf-16-le");
    assert_eq!(detect_encoding(&[0xfe, 0xff, 0x00, 0x00]), "utf-16-be");
    assert_eq!(detect_encoding(b"plain ascii"), "utf-8");
}

#[test]
fn is_code_file_recognizes_supported_extensions() {
    for ext in &["py", "rs", "ts", "tsx", "c", "h", "cpp", "cs", "java", "sql", "js"] {
        assert!(is_code_file(&format!("foo.{ext}")), "{ext}");
    }
    assert!(!is_code_file("foo.txt"));
    assert!(!is_code_file("foo.md"));
}

#[test]
fn language_for_extension_maps_all_variants() {
    assert_eq!(language_for_extension("c"), Some(Language::C));
    assert_eq!(language_for_extension("h"), Some(Language::C));
    assert_eq!(language_for_extension("ts"), Some(Language::TypeScript));
    assert_eq!(language_for_extension("tsx"), Some(Language::TypeScriptTsx));
    assert_eq!(language_for_extension("sql"), Some(Language::Sql));
    assert_eq!(language_for_extension("java"), Some(Language::Java));
    assert_eq!(language_for_extension("nope"), None);
}

#[test]
fn chunk_split_preserves_kind() {
    let chunk = CodeChunk::generic("orig", "r", "f.txt", &"x = 1\n".repeat(20));
    let split = chunk.split("new", "y = 2\n");
    assert!(matches!(split.kind, CodeChunkKind::Generic));
    assert_eq!(split.id, "new");
}

#[test]
fn is_code_file_is_case_insensitive_and_uses_last_component() {
    assert!(is_code_file("src/Main.JAVA"));
    assert!(is_code_file("a.b/c.d/lib.rs"));
    assert!(is_code_file("dir.rs/"));
    assert!(!is_code_file(".rs"));
    assert!(!is_code_file("noext"));
}

#[test]
fn path_parts_follow_path_semantics() {
    assert_eq!(path_file_name("/a/b/f.txt").as_deref(), Some("f.txt"));
    assert_eq!(path_file_name("a/b/"), Some("b".to_string()));
    assert_eq!(path_file_name("a/.."), None);
    assert_eq!(path_file_name("/"), None);
    assert_eq!(path_extension_of("archive.tar.gz").as_deref(), Some("gz"));
    assert_eq!(path_extension_of(".gitignore"), None);
    assert_eq!(path_extension_of("foo."), Some(String::new()));
}

#[test]
fn decode_file_text_follows_detected_encoding() {
    assert_eq!(decode_file_text(b"hi"), "hi");
    assert_eq!(decode_file_text(&[0xff, 0xfe, b'h', 0, b'i', 0]), "\u{feff}hi");
    assert_eq!(decode_file_text(&[0xfe, 0xff, 0, b'h', 0, b'i']), "\u{feff}hi");
    assert_eq!(decode_file_text(&[b'a', 0, b'b', 0]), "ab");
    assert_eq!(decode_utf16(&[b'a', 0, b'b'], true), "a");
}
