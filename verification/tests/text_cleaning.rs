use mcp_nano::patterns::{clean_code, replace_literal, strip_job_prefix, strip_sql_boilerplate};
use mcp_nano::sql::infer_schema_and_object_name;

#[test]
fn clean_code_expands_tabs_and_collapses_empty_braces() {
    assert_eq!(clean_code("a\tb"), "a   b");
    assert_eq!(clean_code("const obj = {  }"), "const obj ={}");
    assert_eq!(clean_code("noop = () => { }"), "noop = () =>{}");
    assert_eq!(clean_code("prop { get; set; }"), "prop {get;set;}");
}

#[test]
fn clean_code_dedents_and_strips() {
    let src = "    def foo():\n        return 1\n";
    assert_eq!(clean_code(src), "def foo():\n    return 1");
}

#[test]
fn clean_code_of_empty_and_blank_text() {
    assert_eq!(clean_code(""), "");
    assert_eq!(clean_code("   \n\t\n"), "");
    assert_eq!(clean_code("a\n\n\n\nb"), "a\n\nb");
}

#[test]
fn strip_sql_boilerplate_extracts_database() {
    let src = "USE [mydb];\nGO\nSET ANSI_NULLS ON\nCREATE TABLE x (id int);";
    let (cleaned, db) = strip_sql_boilerplate(src);
    assert_eq!(db.as_deref(), Some("mydb"));
    assert!(!cleaned.contains("USE"));
    assert!(!cleaned.contains("GO"));
    assert!(!cleaned.contains("ANSI_NULLS"));
    assert!(cleaned.contains("CREATE TABLE x"));
}

#[test]
fn strip_sql_boilerplate_strips_brackets() {
    let (cleaned, _) = strip_sql_boilerplate("SELECT [dbo].[x] FROM [t]");
    assert!(cleaned.contains("dbo.x"));
    assert!(cleaned.contains("FROM t"));
    assert!(!cleaned.contains('['));
}

#[test]
fn strip_sql_boilerplate_is_case_insensitive_and_keeps_last_database() {
    let src = "use first\ngo\nset quoted_identifier off\nSELECT 1;\nUSE second;\nSELECT 2;";
    let (cleaned, db) = strip_sql_boilerplate(src);
    assert_eq!(db.as_deref(), Some("second"));
    assert_eq!(cleaned, "SELECT 1;\nSELECT 2;");
    let (plain, none) = strip_sql_boilerplate("SELECT 3;");
    assert_eq!(plain, "SELECT 3;");
    assert!(none.is_none());
}

#[test]
fn strip_job_prefix_removes_leading_job_uuid() {
    let name = "123e4567-e89b-12d3-a456-426614174000_report.pdf";
    assert_eq!(strip_job_prefix(name).as_deref(), Some("report.pdf"));
    assert_eq!(strip_job_prefix("report.pdf").as_deref(), Some("report.pdf"));
    let upper = "123E4567-E89B-12D3-A456-426614174000_report.pdf";
    assert_eq!(strip_job_prefix(upper).as_deref(), Some(upper));
}

#[test]
fn replace_literal_replaces_every_occurrence() {
    assert_eq!(replace_literal("a-b-c", "-", "+"), "a+b+c");
    assert_eq!(replace_literal("aaa", "aa", "b"), "ba");
}

#[test]
fn infer_schema_and_object_name_reads_statements() {
    assert_eq!(
        infer_schema_and_object_name("CREATE TABLE [dbo].[Users] (id int);"),
        (Some("dbo".to_string()), Some("Users".to_string()))
    );
    assert_eq!(
        infer_schema_and_object_name("  create or replace view sales.v_totals as select 1"),
        (Some("sales".to_string()), Some("v_totals".to_string()))
    );
    assert_eq!(
        infer_schema_and_object_name("GRANT SELECT ON app.orders TO reader;"),
        (Some("app".to_string()), Some("orders".to_string()))
    );
    assert_eq!(
        infer_schema_and_object_name("CREATE POLICY IF NOT EXISTS tenant_isolation ON t"),
        (None, Some("tenant_isolation".to_string()))
    );
    assert_eq!(
        infer_schema_and_object_name("DROP FUNCTION IF EXISTS calc_total(int);"),
        (None, Some("calc_total".to_string()))
    );
    assert_eq!(infer_schema_and_object_name("SELECT * FROM t"), (None, None));
}
