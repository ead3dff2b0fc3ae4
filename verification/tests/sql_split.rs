use mcp_nano::chunk_types::CodeChunkKind;
use mcp_nano::sql_split::{find_dollar_quoted_spans, regex_split_sql_text};

#[test]
fn dollar_quoted_bodies_are_found() {
    let text = "CREATE FUNCTION f() RETURNS int AS $$ SELECT 1 $$ LANGUAGE sql;";
    let open = text.find("$$").unwrap();
    let close = text.rfind("$$").unwrap();
    assert_eq!(find_dollar_quoted_spans(text), vec![(open + 2, close)]);
}

#[test]
fn dollar_quotes_inside_single_quotes_are_ignored() {
    let text = "SELECT '$$ it''s $$', $body$ x $body$";
    let open = text.find("$body$").unwrap();
    let close = text.rfind("$body$").unwrap();
    assert_eq!(find_dollar_quoted_spans(text), vec![(open + 6, close)]);
    assert!(find_dollar_quoted_spans("SELECT $1, $2").is_empty());
    assert!(find_dollar_quoted_spans("AS $$ never closed").is_empty());
}

#[test]
fn split_cuts_at_each_statement_start() {
    let text = "  CREATE TABLE dbo.a (id int);\nCREATE VIEW v AS SELECT 1;\n";
    let deps = vec!["dbo.a".to_string()];
    let chunks = regex_split_sql_text(text, "db/schema.sql", &deps, Some("mydb"));
    assert_eq!(chunks.len(), 2);
    assert_eq!(chunks[0].code, "CREATE TABLE dbo.a (id int);");
    assert_eq!(chunks[1].code, "CREATE VIEW v AS SELECT 1;");
    assert_eq!(chunks[0].file_name, "schema.sql");
    assert_eq!(chunks[0].chunk_type, "sql_statement");
    assert_eq!(chunks[0].dependencies, deps);
    assert!(chunks[0].repo_name.is_empty());
    assert!(chunks[0].id.starts_with("schema.sql-a-"));
    assert_eq!(chunks[0].id.len(), "schema.sql-a-".len() + 8);
    assert!(chunks[1].id.starts_with("schema.sql-v-"));
    match &chunks[0].kind {
        CodeChunkKind::Sql(f) => {
            assert_eq!(f.statement_type.as_deref(), Some("CREATE TABLE"));
            assert_eq!(f.schema_name.as_deref(), Some("dbo"));
            assert_eq!(f.object_name.as_deref(), Some("a"));
            assert_eq!(f.database_name.as_deref(), Some("mydb"));
        }
        _ => panic!("expected a SQL chunk"),
    }
}

#[test]
fn split_keeps_keywords_inside_dollar_bodies() {
    let text = "CREATE FUNCTION f() RETURNS void AS $$\nCREATE TABLE t (id int);\n$$ LANGUAGE sql;\nGRANT SELECT ON t TO r;";
    let chunks = regex_split_sql_text(text, "f.sql", &Vec::new(), None);
    assert_eq!(chunks.len(), 2);
    assert!(chunks[0].code.starts_with("CREATE FUNCTION f()"));
    assert!(chunks[0].code.contains("CREATE TABLE t"));
    assert_eq!(chunks[1].code, "GRANT SELECT ON t TO r;");
    match &chunks[1].kind {
        CodeChunkKind::Sql(f) => {
            assert_eq!(f.object_name.as_deref(), Some("t"));
            assert!(f.database_name.is_none());
        }
        _ => panic!("expected a SQL chunk"),
    }
}

#[test]
fn split_of_text_without_statements_is_empty() {
    assert!(regex_split_sql_text("   \n ", "f.sql", &Vec::new(), None).is_empty());
    assert!(regex_split_sql_text("SELECT 1;", "f.sql", &Vec::new(), None).is_empty());
    let chunks = regex_split_sql_text("SELECT 1;\nDROP TABLE x;", "f.sql", &Vec::new(), None);
    assert_eq!(chunks.len(), 1);
    assert_eq!(chunks[0].code, "DROP TABLE x;");
    assert!(chunks[0].id.starts_with("f.sql-x-"));
}
