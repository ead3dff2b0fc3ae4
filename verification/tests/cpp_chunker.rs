use mcp_nano::chunk_types::{CodeChunkKind, CppFields};
use mcp_nano::code_chunk::CodeChunk;
use mcp_nano::cpp_chunks::{chunk_cpp_source, cpp_source_dependencies, parse_qualified_name};

const SAMPLE_CPP: &str = "#\x69nclude <string>\n\
#\x69nclude \"ByteOrder.h\"\n\
\n\
namespace Poco {\n\
\n\
class ByteOrder {\n\
public:\n\
    static int flipBytes(int value) { return value; }\n\
};\n\
\n\
struct CustomerProfile {\n\
    std::string firstName;\n\
    std::string lastName;\n\
    int age;\n\
    std::string email;\n\
    bool isActive;\n\
};\n\
\n\
void UUID::swap(UUID& uuid) noexcept {\n\
}\n\
\n\
std::string UUID::toString() const {\n\
    return \"\";\n\
}\n\
\n\
}\n";

fn cpp(c: &CodeChunk) -> &CppFields {
    match &c.kind {
        CodeChunkKind::Cpp(f) => f,
        _ => panic!("expected a C++ chunk"),
    }
}

fn find_fn<'a>(chunks: &'a [CodeChunk], name: &str) -> &'a CodeChunk {
    chunks.iter().find(|c| cpp(c).function_name.as_deref() == Some(name)).expect(name)
}

#[test]
fn cpp_functions_classes_and_namespaces() {
    let chunks = chunk_cpp_source(SAMPLE_CPP.as_bytes(), "src/UUID.cpp");
    let swap = find_fn(&chunks, "swap");
    let f = cpp(swap);
    assert_eq!(f.class_name.as_deref(), Some("UUID"));
    assert_eq!(f.namespace.as_deref(), Some("Poco"));
    assert_eq!(f.return_type.as_deref(), Some("void"));
    let params: Vec<(&str, &str)> = f.parameters.iter().map(|p| (p.name.as_str(), p.param_type.as_str())).collect();
    assert_eq!(params, vec![("uuid", "UUID&")]);

    let to_string = cpp(find_fn(&chunks, "toString"));
    assert_eq!(to_string.class_name.as_deref(), Some("UUID"));
    assert_eq!(to_string.return_type.as_deref(), Some("std::string"));

    let flip = cpp(find_fn(&chunks, "flipBytes"));
    assert_eq!(flip.class_name.as_deref(), Some("ByteOrder"));
    assert_eq!(flip.namespace.as_deref(), Some("Poco"));
    assert_eq!(flip.return_type.as_deref(), Some("int"));

    assert!(chunks.iter().any(|c| c.chunk_type == "class_specifier" && cpp(c).class_name.as_deref() == Some("ByteOrder")));
    let poco = chunks
        .iter()
        .find(|c| cpp(c).class_name.as_deref() == Some("CustomerProfile"))
        .expect("CustomerProfile struct");
    assert_eq!(poco.chunk_type, "struct_specifier");
    for field in ["CustomerProfile", "firstName", "lastName", "age", "email", "isActive"] {
        assert!(poco.code.contains(field));
    }
}

#[test]
fn cpp_remainder_keeps_types_but_not_definitions() {
    let chunks = chunk_cpp_source(SAMPLE_CPP.as_bytes(), "src/UUID.cpp");
    let rem = chunks.iter().find(|c| c.chunk_type == "file_remainder").unwrap();
    // Class and struct chunks leave their text in the remainder.
    assert!(rem.code.contains("CustomerProfile"));
    assert!(!rem.code.contains("UUID::swap"));
    assert_eq!(cpp_source_dependencies(SAMPLE_CPP.as_bytes()), vec!["string".to_string(), "ByteOrder.h".to_string()]);
}

#[test]
fn cpp_qualified_names() {
    assert_eq!(parse_qualified_name("UUID::swap(UUID& uuid)"), (Some("swap".to_string()), Some("UUID".to_string())));
    assert_eq!(parse_qualified_name("a::b::c()"), (Some("c".to_string()), Some("b".to_string())));
    assert_eq!(parse_qualified_name("::global()"), (Some("global".to_string()), None));
    assert_eq!(parse_qualified_name("plain(int)"), (Some("plain".to_string()), None));
    assert_eq!(parse_qualified_name("(int)"), (None, None));
}
