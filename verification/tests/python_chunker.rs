use mcp_nano::chunk_types::{CodeChunkKind, PythonFields};
use mcp_nano::code_chunk::CodeChunk;
use mcp_nano::python_chunks::{chunk_python_source, python_source_dependencies};

const SAMPLE_PY: &str = r#"from __future__ import annotations
import json, os as operating_system
import package.module
from collections.abc import Mapping
from . import sibling
from ..sibling import thing
from typing import TypeAlias

Vector: TypeAlias = list[float]
square = lambda x, y=2: x * y

@dataclass
class CustomerProfile(Base, Mixin):
    first_name: str
    last_name: str = ""
    age: int = 0
    Alias: TypeAlias = int

    def full_name(self, sep: str = " ") -> str:
        def inner():
            return sep
        return self.first_name + sep

    async def stream(self, *args, **kwargs):
        yield 1

def top_level(a, /, b, *, c):
    return a
"#;

fn py(c: &CodeChunk) -> &PythonFields {
    match &c.kind {
        CodeChunkKind::Python(f) => f,
        _ => panic!("expected a Python chunk"),
    }
}

fn names(f: &PythonFields) -> Vec<&str> {
    f.parameters.iter().map(|p| p.name.as_str()).collect()
}

#[test]
fn python_dependencies_in_document_order() {
    assert_eq!(
        python_source_dependencies(SAMPLE_PY.as_bytes()),
        vec!["__future__", "json", "os", "package.module", "collections.abc", ".", "..sibling", "typing"]
    );
}

#[test]
fn python_declarations_in_walk_order() {
    let chunks = chunk_python_source(SAMPLE_PY.as_bytes(), "pkg/models.py");
    let got: Vec<(&str, Option<&str>, Option<&str>)> = chunks
        .iter()
        .filter(|c| c.chunk_type != "file_remainder")
        .map(|c| (c.chunk_type.as_str(), py(c).function_name.as_deref(), py(c).class_name.as_deref()))
        .collect();
    assert_eq!(
        got,
        vec![
            ("type_alias_assignment", None, None),
            ("lambda", Some("square"), None),
            ("class_definition", None, Some("CustomerProfile")),
            ("type_alias_assignment", None, Some("CustomerProfile")),
            ("function_definition", Some("full_name"), Some("CustomerProfile")),
            ("function_definition", Some("inner"), Some("CustomerProfile")),
            ("function_definition", Some("stream"), Some("CustomerProfile")),
            ("function_definition", Some("top_level"), None),
        ]
    );
}

#[test]
fn python_functions_signatures() {
    let chunks = chunk_python_source(SAMPLE_PY.as_bytes(), "pkg/models.py");
    let find = |n: &str| py(chunks.iter().find(|c| py(c).function_name.as_deref() == Some(n)).unwrap());
    let full = find("full_name");
    assert!(full.is_method);
    assert_eq!(full.return_type.as_deref(), Some("str"));
    assert_eq!(names(full), vec!["self", "sep"]);
    assert_eq!(full.parameters[1].param_type, "sep: str = \" \"");
    assert!(!find("inner").is_method);
    let stream = find("stream");
    assert!(stream.is_async && stream.is_generator && stream.is_method);
    assert!(!full.is_generator);
    assert_eq!(names(find("top_level")), vec!["a", "/", "b", "*", "c"]);
    assert_eq!(names(find("square")), vec!["x", "y"]);
}

#[test]
fn python_class_header_properties_and_aliases() {
    let chunks = chunk_python_source(SAMPLE_PY.as_bytes(), "pkg/models.py");
    let class = chunks.iter().find(|c| c.chunk_type == "class_definition").unwrap();
    let f = py(class);
    assert_eq!(f.decorators, vec!["@dataclass".to_string()]);
    assert_eq!(f.bases.as_deref(), Some("Base, Mixin"));
    let props: Vec<(&str, &str)> = f.properties.iter().map(|p| (p.name.as_str(), p.param_type.as_str())).collect();
    assert_eq!(props, vec![("first_name", "str"), ("last_name", "str"), ("age", "int"), ("Alias", "")]);
    assert_eq!(
        class.code,
        "@dataclass\nclass CustomerProfile(Base, Mixin):\nfirst_name: str\nlast_name: str = \"\"\nage: int = 0"
    );
    let vector = py(&chunks[0]);
    assert!(vector.is_type_alias);
    assert_eq!(vector.alias_name.as_deref(), Some("Vector"));
    assert_eq!(vector.alias_target.as_deref(), Some("list[float]"));
    let rem = chunks.iter().find(|c| c.chunk_type == "file_remainder").unwrap();
    assert!(rem.code.contains("import json"));
    assert!(!rem.code.contains("def top_level"));
    assert!(!rem.code.contains("Vector"));
}
