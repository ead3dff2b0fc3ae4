use mcp_nano::chunk_types::CodeChunkKind;
use mcp_nano::java_chunks::chunk_java_source;

const SAMPLE: &str = r#"package com.example.demo;

import java.util.List;
import static java.lang.Math.max;
import java.util.List;

public class Assert {
    private int count;

    public Assert(int count) {
        this.count = count;
    }

    public String state(List<String> names, int... levels) {
        return "ok";
    }
}

interface Validatable {
    boolean isValid();
}

enum AssertionSeverity { INFO, FATAL }
"#;

fn java_fields(c: &mcp_nano::code_chunk::CodeChunk) -> &mcp_nano::chunk_types::JavaFields {
    match &c.kind {
        CodeChunkKind::Java(f) => f,
        _ => panic!("expected a Java chunk"),
    }
}

#[test]
fn java_methods_types_and_package() {
    let chunks = chunk_java_source(SAMPLE.as_bytes(), "src/Assert.java");
    let types: Vec<&str> = chunks.iter().map(|c| c.chunk_type.as_str()).collect();
    assert_eq!(
        types,
        vec![
            "class_declaration",
            "constructor_declaration",
            "method_declaration",
            "interface_declaration",
            "method_declaration",
            "enum_declaration",
            "file_remainder"
        ]
    );
    let state = &chunks[2];
    let f = java_fields(state);
    assert_eq!(f.function_name.as_deref(), Some("state"));
    assert_eq!(f.class_name.as_deref(), Some("Assert"));
    assert_eq!(f.namespace.as_deref(), Some("com.example.demo"));
    assert_eq!(f.return_type.as_deref(), Some("String"));
    let params: Vec<(&str, &str)> = f.parameters.iter().map(|p| (p.name.as_str(), p.param_type.as_str())).collect();
    assert_eq!(params, vec![("names", "List<String>")]);
    assert_eq!(
        state.dependencies,
        vec!["java.util.List".to_string(), "java.lang.Math.max".to_string()]
    );
    assert!(state.id.starts_with("Assert.java-state-"));
    assert_eq!(state.file_name, "Assert.java");

    let ctor = java_fields(&chunks[1]);
    assert_eq!(ctor.function_name.as_deref(), Some("Assert"));
    assert!(ctor.return_type.is_none());

    let iface = &chunks[3];
    assert_eq!(java_fields(iface).class_name.as_deref(), Some("Validatable"));
    assert!(iface.code.contains("isValid"));
    assert_eq!(java_fields(&chunks[4]).class_name.as_deref(), Some("Validatable"));
    assert!(chunks[5].code.contains("FATAL"));

    let rem = &chunks[6];
    assert!(!rem.code.contains("return \"ok\""));
    assert!(rem.code.contains("private int count;"));
}

#[test]
fn java_without_package_or_declarations() {
    let chunks = chunk_java_source(b"// nothing here\n", "A.java");
    assert_eq!(chunks.len(), 1);
    assert_eq!(chunks[0].chunk_type, "file_remainder");
    assert!(chunk_java_source(b"", "B.java").is_empty());
}
