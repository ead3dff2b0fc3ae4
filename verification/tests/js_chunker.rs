use mcp_nano::chunk_types::{CodeChunkKind, JavaScriptFields};
use mcp_nano::code_chunk::CodeChunk;
use mcp_nano::js_chunks::{chunk_js_source, js_source_dependencies};

const SAMPLE_JS: &str = r#"import fs from "fs";
import { merge as m } from './utils';
import fs2 from "fs";
const {isArray} = Array;

function isBuffer(val) { return val != null; }

function* forEach(obj, fn) { yield obj; }

async function findKey(obj, key = 'x') { return key; }

const merge = (a, b) => ({...a, ...b});

var helper = function () {}, other = 1;

class CustomerProfile {
  constructor(firstName, lastName) { this.firstName = firstName; }
  getFullName() { return this.firstName; }
  static async *stream() {}
}
"#;

fn js(c: &CodeChunk) -> &JavaScriptFields {
    match &c.kind {
        CodeChunkKind::JavaScript(f) => f,
        _ => panic!("expected a JavaScript chunk"),
    }
}

fn names(f: &JavaScriptFields) -> Vec<&str> {
    f.parameters.iter().map(|p| p.name.as_str()).collect()
}

#[test]
fn js_functions_methods_and_variables_in_order() {
    let chunks = chunk_js_source(SAMPLE_JS.as_bytes(), "lib/utils.js");
    let got: Vec<(&str, Option<&str>)> = chunks
        .iter()
        .filter(|c| c.chunk_type != "file_remainder")
        .map(|c| (c.chunk_type.as_str(), js(c).function_name.as_deref()))
        .collect();
    assert_eq!(
        got,
        vec![
            ("function_declaration", Some("isBuffer")),
            ("generator_function_declaration", Some("forEach")),
            ("function_declaration", Some("findKey")),
            ("arrow_function", Some("merge")),
            ("function_expression", Some("helper")),
            ("method_definition", Some("constructor")),
            ("method_definition", Some("getFullName")),
            ("method_definition", Some("stream")),
        ]
    );
    let find = |n: &str| chunks.iter().find(|c| js(c).function_name.as_deref() == Some(n)).unwrap();
    assert!(js(find("forEach")).is_generator);
    assert!(!js(find("forEach")).is_async);
    assert!(js(find("findKey")).is_async);
    assert_eq!(names(js(find("findKey"))), vec!["obj", "key"]);
    assert_eq!(names(js(find("merge"))), vec!["a", "b"]);
    assert_eq!(find("merge").code, "merge = (a, b) => ({...a, ...b})");
    let full = js(find("getFullName"));
    assert_eq!(full.class_name.as_deref(), Some("CustomerProfile"));
    assert!(full.is_method);
    let stream = js(find("stream"));
    assert!(stream.is_async && stream.is_generator);
    assert_eq!(js(find("isBuffer")).class_name, None);
}

#[test]
fn js_remainder_and_dependencies() {
    let chunks = chunk_js_source(SAMPLE_JS.as_bytes(), "lib/utils.js");
    let rem = chunks.iter().find(|c| c.chunk_type == "file_remainder").unwrap();
    assert!(rem.code.contains("const {isArray}"));
    assert!(rem.code.contains("other = 1"));
    assert!(!rem.code.contains("function isBuffer"));
    assert!(!rem.code.contains("const merge"));
    assert!(rem.code.contains("CustomerProfile"));
    assert_eq!(js_source_dependencies(SAMPLE_JS.as_bytes()), vec!["fs".to_string(), "./utils".to_string()]);
    assert_eq!(chunks[0].dependencies, vec!["fs".to_string(), "./utils".to_string()]);
}
