use mcp_nano::c_chunks::{c_source_dependencies, chunk_c_source, function_name_from_declarator};
use mcp_nano::chunk_types::{CFields, CodeChunkKind};
use mcp_nano::code_chunk::CodeChunk;

// The preprocessor directive is spelled with an escape for its first letter.
const SAMPLE_C: &str = "#\x69nclude <stdio.h>\n\
#\x69nclude \"util.h\"\n\
#\x69nclude <stdio.h>\n\
\n\
#define STACK_SIZE 9\n\
\n\
typedef struct Profile { char *firstName; int age; } Profile;\n\
\n\
static int string2ll(const char *s, size_t slen, long long *value) {\n\
    return 0;\n\
}\n\
\n\
char *dup_name(const char *name, ...) {\n\
    return 0;\n\
}\n\
\n\
void processItem(void) { }\n";

fn c_fields(c: &CodeChunk) -> &CFields {
    match &c.kind {
        CodeChunkKind::C(f) => f,
        _ => panic!("expected a C chunk"),
    }
}

fn params(f: &CFields) -> Vec<(&str, &str)> {
    f.parameters.iter().map(|p| (p.name.as_str(), p.param_type.as_str())).collect()
}

#[test]
fn c_functions_params_and_return_types() {
    let chunks = chunk_c_source(SAMPLE_C.as_bytes(), "src/reader.c");
    let types: Vec<&str> = chunks.iter().map(|c| c.chunk_type.as_str()).collect();
    assert_eq!(types, vec!["function_definition", "function_definition", "function_definition", "file_remainder"]);

    let f = c_fields(&chunks[0]);
    assert_eq!(f.function_name.as_deref(), Some("string2ll"));
    assert_eq!(f.return_type.as_deref(), Some("int"));
    assert_eq!(params(f), vec![("s", "const char *"), ("slen", "size_t"), ("value", "long long *")]);
    assert!(chunks[0].code.starts_with("static int string2ll"));
    assert_eq!(chunks[0].file_name, "reader.c");
    assert!(chunks[0].id.starts_with("reader.c-string2ll-"));

    let f = c_fields(&chunks[1]);
    assert_eq!(f.function_name.as_deref(), Some("dup_name"));
    assert_eq!(f.return_type.as_deref(), Some("char"));
    assert_eq!(params(f), vec![("name", "const char *"), ("...", "")]);

    let f = c_fields(&chunks[2]);
    assert_eq!(f.function_name.as_deref(), Some("processItem"));
    assert_eq!(params(f), vec![("void", "")]);
    assert_eq!(f.namespace, None);
}

#[test]
fn c_dependencies_once_in_order() {
    assert_eq!(c_source_dependencies(SAMPLE_C.as_bytes()), vec!["stdio.h".to_string(), "util.h".to_string()]);
    let chunks = chunk_c_source(SAMPLE_C.as_bytes(), "src/reader.c");
    assert_eq!(chunks[0].dependencies, vec!["stdio.h".to_string(), "util.h".to_string()]);
}

#[test]
fn c_remainder_keeps_macros_and_types_only() {
    let chunks = chunk_c_source(SAMPLE_C.as_bytes(), "src/reader.c");
    let rem = chunks.iter().find(|c| c.chunk_type == "file_remainder").unwrap();
    assert!(rem.code.contains("STACK_SIZE"));
    assert!(rem.code.contains("firstName"));
    assert!(!rem.code.contains("string2ll"));
    assert!(!rem.code.contains("processItem"));
}

#[test]
fn c_function_name_from_declarator_text() {
    assert_eq!(function_name_from_declarator("*dup_name(const char *name)"), Some("dup_name".to_string()));
    assert_eq!(function_name_from_declarator("(*handler)(int)"), None);
    assert_eq!(function_name_from_declarator("& * ref(int)"), Some("ref".to_string()));
    assert_eq!(function_name_from_declarator("unsigned long count(void)"), Some("count".to_string()));
    assert_eq!(function_name_from_declarator("   "), None);
}

#[test]
fn c_empty_source_gives_no_chunks() {
    assert!(chunk_c_source(b"", "empty.c").is_empty());
    assert!(c_source_dependencies(b"").is_empty());
}
