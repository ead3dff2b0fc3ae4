use mcp_nano::chunk_types::{CodeChunkKind, SqlFields};
use mcp_nano::code_chunk::CodeChunk;
use mcp_nano::sql::{
    filter_junk_chunks, generate_chunk_id, get_statement_label, infer_statement_type,
    inside_spans, make_remainder_chunk, merge_alter_table_chunks, parse_qualified_name,
    strip_brackets,
};

fn sql_chunk(code: &str, stmt: Option<&str>, object: Option<&str>) -> CodeChunk {
    let mut c = CodeChunk::generic("id", "repo", "f.sql", code);
    c.chunk_type = "sql_statement".to_string();
    c.kind = CodeChunkKind::Sql(SqlFields {
        statement_type: stmt.map(|s| s.to_string()),
        object_name: object.map(|s| s.to_string()),
        schema_name: Some("dbo".to_string()),
        database_name: None,
    });
    c
}

#[test]
fn make_remainder_chunk_normalizes_and_skips_empty() {
    let empty: &[u8] = b"   \n\n   ";
    assert!(make_remainder_chunk(empty, &[], "f.txt", &Vec::new()).is_none());

    let src: &[u8] = b"left\n  \n\n\n   right\n";
    let chunk = make_remainder_chunk(src, &[], "f.txt", &Vec::new()).unwrap();
    assert_eq!(chunk.chunk_type, "file_remainder");
    assert!(chunk.code.contains("left"));
    assert!(chunk.code.contains("right"));
}

#[test]
fn generate_chunk_id_format() {
    let id = generate_chunk_id("/a/b/f.txt", "my_func");
    assert!(id.starts_with("f.txt-my_func-"));
    assert_eq!(id.len(), "f.txt-my_func-".len() + 8);
}

#[test]
fn sql_names_and_labels() {
    assert_eq!(strip_brackets("  [dbo] "), "dbo");
    assert_eq!(strip_brackets("[x"), "[x");
    assert_eq!(get_statement_label("create_table"), "CREATE TABLE");
    assert_eq!(parse_qualified_name("[dbo].[Users]"), (Some("dbo".to_string()), Some("Users".to_string())));
    assert_eq!(parse_qualified_name("a.b.c"), (Some("a".to_string()), Some("c".to_string())));
    assert_eq!(parse_qualified_name("Users"), (None, Some("Users".to_string())));
    assert_eq!(parse_qualified_name("[]"), (None, None));
    assert!(inside_spans(5, &[(0, 2), (4, 6)]));
    assert!(!inside_spans(6, &[(0, 2), (4, 6)]));
}

#[test]
fn infer_statement_type_cases() {
    assert_eq!(infer_statement_type("create  table\n x (id int)"), "CREATE TABLE");
    assert_eq!(infer_statement_type("DROP TABLE IF EXISTS t;"), "DROP TABLE");
    assert_eq!(infer_statement_type("insert into t values (1)"), "INSERT");
    assert_eq!(infer_statement_type("EXEC sp_help"), "EXEC SP_HELP");
    assert_eq!(infer_statement_type("vacuum"), "VACUUM");
    assert_eq!(infer_statement_type("   "), "UNKNOWN");
    assert_eq!(infer_statement_type("create or replace package body p as"), "CREATE OR REPLACE PACKAGE BODY");
}

#[test]
fn filter_junk_keeps_known_statements_in_order() {
    let chunks = vec![
        sql_chunk("a", Some("create table"), Some("t")),
        sql_chunk("b", Some("EXEC X"), None),
        CodeChunk::generic("g", "r", "f.txt", "x"),
        sql_chunk("c", None, None),
        sql_chunk("d", Some("SELECT"), None),
    ];
    let kept = filter_junk_chunks(chunks);
    let codes: Vec<&str> = kept.iter().map(|c| c.code.as_str()).collect();
    assert_eq!(codes, vec!["a", "x", "d"]);
}

#[test]
fn merge_alter_table_groups_by_object_name() {
    let chunks = vec![
        sql_chunk("ALTER TABLE A ADD x int;", Some("ALTER TABLE"), Some("Users")),
        sql_chunk("CREATE TABLE b (id int);", Some("CREATE TABLE"), Some("b")),
        sql_chunk("ALTER TABLE users ADD y int;", Some("ALTER TABLE"), Some("users")),
        sql_chunk("ALTER TABLE c ADD z int;", Some("ALTER TABLE"), Some("c")),
    ];
    let deps = vec!["dep".to_string()];
    let merged = merge_alter_table_chunks(chunks, "/x/schema.sql", &deps, Some("db"));
    assert_eq!(merged.len(), 3);
    assert_eq!(merged[0].code, "CREATE TABLE b (id int);");
    assert_eq!(merged[1].code, "ALTER TABLE A ADD x int;\n\nALTER TABLE users ADD y int;");
    assert!(merged[1].id.starts_with("schema.sql-users-"));
    assert_eq!(merged[1].dependencies, deps);
    match &merged[1].kind {
        CodeChunkKind::Sql(f) => {
            assert_eq!(f.statement_type.as_deref(), Some("ALTER TABLE"));
            assert_eq!(f.object_name.as_deref(), Some("Users"));
            assert_eq!(f.database_name.as_deref(), Some("db"));
        }
        _ => panic!("expected a SQL chunk"),
    }
    assert_eq!(merged[2].code, "ALTER TABLE c ADD z int;");
}
