use mcp_nano::chunk_types::{CodeChunkKind, SqlFields};
use mcp_nano::code_chunk::CodeChunk;
use mcp_nano::sql_tree::chunk_sql_source;

const SAMPLE_SQL: &str = "USE inventory;\nGO\n-- orders\nCREATE TABLE dbo.Orders (\n    id INT PRIMARY KEY,\n    customer_id INT REFERENCES Customers(id)\n);\n\nALTER TABLE dbo.Orders ADD note TEXT;\nALTER TABLE dbo.Orders ADD total INT;\n\nINSERT INTO dbo.Orders (id) VALUES (1);\n";

fn sql(c: &CodeChunk) -> &SqlFields {
    match &c.kind {
        CodeChunkKind::Sql(f) => f,
        _ => panic!("expected a SQL chunk"),
    }
}

#[test]
fn sql_statements_named_typed_and_merged() {
    let chunks = chunk_sql_source(SAMPLE_SQL, "db/schema.sql");
    let got: Vec<(&str, Option<&str>, Option<&str>)> = chunks
        .iter()
        .map(|c| (sql(c).statement_type.as_deref().unwrap(), sql(c).schema_name.as_deref(), sql(c).object_name.as_deref()))
        .collect();
    assert_eq!(
        got,
        vec![
            ("CREATE TABLE", Some("dbo"), Some("Orders")),
            ("INSERT", Some("dbo"), Some("Orders")),
            ("ALTER TABLE", Some("dbo"), Some("Orders")),
        ]
    );
    assert!(chunks.iter().all(|c| sql(c).database_name.as_deref() == Some("inventory")));
    assert!(chunks.iter().all(|c| c.chunk_type == "sql_statement"));
    assert_eq!(chunks[0].code, "CREATE TABLE dbo.Orders (\n    id INT PRIMARY KEY,\n    customer_id INT REFERENCES Customers(id)\n);");
    assert_eq!(chunks[2].code, "ALTER TABLE dbo.Orders ADD note TEXT;\n\nALTER TABLE dbo.Orders ADD total INT;");
    assert!(chunks[0].id.starts_with("schema.sql-Orders-"));
}

#[test]
fn sql_references_are_dependencies() {
    let chunks = chunk_sql_source(SAMPLE_SQL, "db/schema.sql");
    assert_eq!(chunks[0].dependencies, vec!["Customers".to_string()]);
    assert!(!chunks.iter().any(|c| c.code.contains("-- orders")));
}

#[test]
fn sql_blank_text_gives_no_chunks() {
    assert!(chunk_sql_source("  \n-- nothing here\n", "empty.sql").is_empty());
}
