use mcp_nano::code_files::{chunk_single_code_file, finish_code_chunks, generic_code_chunks};
use mcp_nano::code_chunk::CodeChunk;

#[test]
fn code_file_uses_language_chunker_and_stamps_chunks() {
    let src = "fn alpha() {}\n\nfn beta(x: u8) -> u8 { x }\n";
    let chunks = chunk_single_code_file("crates/core/src/Lib.RS", src.as_bytes(), "my_repo", None, &vec![]);
    let types: Vec<&str> = chunks.iter().map(|c| c.chunk_type.as_str()).collect();
    assert_eq!(types, vec!["function_item", "function_item"]);
    assert!(chunks.iter().all(|c| c.repo_name == "my_repo" && c.file_name == "Lib.RS"));
    assert_eq!(chunks[1].code, "fn beta(x: u8) -> u8 { x }");
}

#[test]
fn code_file_name_override_applies() {
    let src = "def f():\n    return 1\n";
    let chunks = chunk_single_code_file("tmp/upload_123.py", src.as_bytes(), "repo", Some("original.py"), &vec![]);
    assert_eq!(chunks.len(), 1);
    assert_eq!(chunks[0].file_name, "original.py");
    assert_eq!(chunks[0].chunk_type, "function_definition");
}

#[test]
fn unknown_extension_falls_back_to_generic_pieces() {
    let text = "first part\nsecond part\n";
    let pieces = vec!["first part".to_string(), "second part".to_string()];
    let chunks = chunk_single_code_file("docs/notes.txt", text.as_bytes(), "repo", None, &pieces);
    assert_eq!(chunks.len(), 2);
    assert!(chunks.iter().all(|c| c.chunk_type == "generic" && c.repo_name == "repo" && c.file_name == "notes.txt"));
    assert_eq!(chunks[0].code, "first part");
    assert_eq!(chunks[0].id.len(), 36);
    assert_ne!(chunks[0].id, chunks[1].id);
}

#[test]
fn generic_chunking_skips_empty_and_nul_text() {
    let pieces = vec!["x".to_string()];
    assert!(generic_code_chunks("", "r", "f", &pieces).is_empty());
    assert!(generic_code_chunks("a\0b", "r", "f", &pieces).is_empty());
    assert_eq!(generic_code_chunks("ab", "r", "f", &pieces).len(), 1);
}

#[test]
fn finishing_cleans_code() {
    let chunk = CodeChunk::generic("id-1", "old", "old.txt", "line one   \n\n\n\nline two\t");
    let done = finish_code_chunks(vec![chunk], "new_repo", "new.txt");
    assert_eq!(done[0].repo_name, "new_repo");
    assert_eq!(done[0].file_name, "new.txt");
    assert_eq!(done[0].id, "id-1");
    assert!(!done[0].code.contains("\n\n\n"));
}

#[test]
fn tsx_file_goes_to_the_react_chunker() {
    let src = "export function App() {\n  return <div />;\n}\n";
    let chunks = chunk_single_code_file("web/App.tsx", src.as_bytes(), "repo", None, &vec![]);
    assert_eq!(chunks.len(), 2);
    assert_eq!(chunks[0].chunk_type, "functional_component");
    assert_eq!(chunks[0].repo_name, "repo");
    assert_eq!(chunks[0].file_name, "App.tsx");
    assert_eq!(chunks[1].chunk_type, "file_remainder");
    assert_eq!(chunks[1].code, "export");
}
