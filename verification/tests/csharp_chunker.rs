use mcp_nano::chunk_types::{CSharpFields, CodeChunkKind};
use mcp_nano::code_chunk::CodeChunk;
use mcp_nano::csharp_chunks::chunk_csharp_source;

const SAMPLE_CS: &str = r#"using System;
using static System.Math;
using Json = System.Text.Json;
using System;

namespace Demo {
    public interface IShape { double Area(); }

    public record MaxDiscountLogItemSummary(string ItemNumber, decimal TotalQuantity);

    public record MaxDicount2 { public string Name { get; init; } public decimal Amount { get; init; } }

    public struct JsonEncodedText { }

    public enum JsonTokenType { None, Start }

    public delegate void JsonWriteCallback(int depth, string name);

    public class CustomerProfile {
        public string FirstName { get; set; }
        public int Age { get; set; }
        public string Encode(string value, int times) { return value; }
    }
}
"#;

fn cs(c: &CodeChunk) -> &CSharpFields {
    match &c.kind {
        CodeChunkKind::CSharp(f) => f,
        _ => panic!("expected a C# chunk"),
    }
}

fn pairs(v: &[mcp_nano::chunk_types::Parameter]) -> Vec<(&str, &str)> {
    v.iter().map(|p| (p.name.as_str(), p.param_type.as_str())).collect()
}

#[test]
fn csharp_declarations_in_order() {
    let chunks = chunk_csharp_source(SAMPLE_CS.as_bytes(), "src/Demo.cs");
    let types: Vec<&str> = chunks.iter().map(|c| c.chunk_type.as_str()).collect();
    assert_eq!(
        types,
        vec![
            "interface_declaration",
            "record_declaration",
            "record_declaration",
            "struct_declaration",
            "enum_declaration",
            "delegate_declaration",
            "class_declaration",
            "method_declaration"
        ]
    );
    assert_eq!(cs(&chunks[0]).interface_name.as_deref(), Some("IShape"));
    assert_eq!(pairs(&cs(&chunks[1]).properties), vec![("ItemNumber", "string"), ("TotalQuantity", "decimal")]);
    assert_eq!(pairs(&cs(&chunks[2]).properties), vec![("Name", "string"), ("Amount", "decimal")]);
    assert_eq!(cs(&chunks[4]).class_name.as_deref(), Some("JsonTokenType"));
    let del = cs(&chunks[5]);
    assert_eq!(del.class_name.as_deref(), Some("JsonWriteCallback"));
    assert_eq!(del.return_type.as_deref(), Some("void"));
    assert_eq!(pairs(&del.parameters), vec![("depth", "int"), ("name", "string")]);
}

#[test]
fn csharp_class_keeps_header_and_properties() {
    let chunks = chunk_csharp_source(SAMPLE_CS.as_bytes(), "src/Demo.cs");
    let class = chunks.iter().find(|c| c.chunk_type == "class_declaration").unwrap();
    assert_eq!(class.code, "public class CustomerProfile\npublic string FirstName { get; set; }\npublic int Age { get; set; }");
    assert_eq!(pairs(&cs(class).properties), vec![("FirstName", "string"), ("Age", "int")]);
    let enc = chunks.iter().find(|c| cs(c).function_name.as_deref() == Some("Encode")).unwrap();
    let f = cs(enc);
    assert_eq!(f.class_name.as_deref(), Some("CustomerProfile"));
    assert_eq!(pairs(&f.parameters), vec![("value", "string"), ("times", "int")]);
    assert!(enc.id.starts_with("Demo.cs-CustomerProfile-"));
    assert!(!chunks.iter().any(|c| cs(c).function_name.as_deref() == Some("Area")));
}

#[test]
fn csharp_using_dependencies() {
    let chunks = chunk_csharp_source(SAMPLE_CS.as_bytes(), "src/Demo.cs");
    assert_eq!(
        chunks[0].dependencies,
        vec!["System".to_string(), "System.Math".to_string(), "System.Text.Json".to_string()]
    );
}
