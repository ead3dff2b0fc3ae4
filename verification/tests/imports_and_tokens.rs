use mcp_nano::bm25::{query_token_ids, term_counts, token_id, tokenize_and_stem, tokenize_simple};
use mcp_nano::chunk_make::{make_c_chunk, make_python_chunk};
use mcp_nano::chunk_types::{CodeChunkKind, PythonFields};
use mcp_nano::imports::{
    extract_param_type_from_text, normalize_csharp_using, normalize_include_target,
    normalize_java_import, normalize_rust_dependency, normalize_type_text,
};

#[test]
fn mmh3_token_ids_match_python() {
    assert_eq!(token_id("rust"), 326552902);
    assert_eq!(token_id("hello"), 613153351);
    assert_eq!(token_id("jump"), 1913189942);
    assert_eq!(token_id("fox"), 1621867415);
    assert_eq!(token_id("dog"), 1312749093);
    assert_eq!(token_id("run"), 243905464);
    assert_eq!(token_id("world"), 74040069);
    assert_eq!(token_id("123"), 1632341525);
}

#[test]
fn tokenizer_lowercases_and_splits_on_non_word_chars() {
    assert_eq!(tokenize_simple("Hello, World_x!  42"), vec!["hello", "world_x", "42"]);
    assert!(tokenize_simple("  ...  ").is_empty());
}

#[test]
fn stemming_drops_stopwords_and_long_tokens() {
    let terms = tokenize_and_stem("the quick brown fox jumps over the lazy dog", true);
    assert_eq!(terms, vec!["quick", "brown", "fox", "jump", "lazi", "dog"]);
    let long = "a".repeat(41);
    let terms = tokenize_and_stem(&format!("rust {long} code"), false);
    assert_eq!(terms, vec!["rust", "code"]);
    assert_eq!(tokenize_and_stem("jumps jumping", false), vec!["jumps", "jumping"]);
    assert!(tokenize_and_stem("the the and or", true).is_empty());
}

#[test]
fn query_ids_are_sorted_and_unique() {
    let ids = query_token_ids("the quick brown fox jumps over the lazy dog fox", true);
    assert_eq!(ids.len(), 6);
    assert!(ids.windows(2).all(|w| w[0] < w[1]));
    assert!(ids.contains(&token_id("jump")));
    let counts = term_counts(&vec!["a".to_string(), "b".to_string(), "a".to_string()]);
    assert_eq!(counts, vec![("a".to_string(), 2), ("b".to_string(), 1)]);
}

#[test]
fn dependency_texts_are_normalized() {
    assert_eq!(normalize_include_target(" <stdio.h> "), "stdio.h");
    assert_eq!(normalize_include_target("\" my.h \""), "my.h");
    assert_eq!(normalize_include_target("plain"), "plain");
    assert_eq!(extract_param_type_from_text("const char *name", Some("name")), "const char *");
    assert_eq!(extract_param_type_from_text("int", Some("x")), "int");
    assert_eq!(extract_param_type_from_text("", Some("x")), "");
    assert_eq!(normalize_csharp_using("using static System.Math;").as_deref(), Some("System.Math"));
    assert_eq!(normalize_csharp_using("using Alias = global::My.Ns;").as_deref(), Some("My.Ns"));
    assert_eq!(normalize_csharp_using("namespace X"), None);
    assert_eq!(normalize_csharp_using("using ;"), None);
    assert_eq!(normalize_java_import("import static java.util.List;"), "java.util.List");
    assert_eq!(normalize_rust_dependency("pub use crate::a::b;"), "crate::a::b");
    assert_eq!(normalize_rust_dependency("extern crate serde;"), "serde");
    assert_eq!(normalize_type_text(" : Vec<u8>"), "Vec<u8>");
}

#[test]
fn extracted_chunks_carry_base_fields() {
    let deps = vec!["stdio.h".to_string()];
    let c = make_c_chunk("/src/main.c", Some("main".into()), Vec::new(), Some("int".into()), "int main(){}".into(), "function_definition", &deps);
    assert!(c.id.starts_with("main.c-main-"));
    assert_eq!(c.file_name, "main.c");
    assert_eq!(c.repo_name, "");
    assert_eq!(c.dependencies, deps);
    assert!(matches!(c.kind, CodeChunkKind::C(_)));
    let fields = PythonFields { alias_name: Some("Alias".into()), ..Default::default() };
    let p = make_python_chunk("a/b.py", fields, "Alias = int".into(), "type_alias", &Vec::new());
    assert!(p.id.starts_with("b.py-Alias-"));
    let u = make_c_chunk("x.c", None, Vec::new(), None, "".into(), "t", &Vec::new());
    assert!(u.id.starts_with("x.c-Unknown-"));
}
