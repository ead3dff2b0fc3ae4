use mcp_nano::chunk_helpers::{strip_comments, strip_js_import_source, strip_sql_comments};
use mcp_nano::spans::{build_remainder_code, byte_slice_text, merge_spans};

#[test]
fn strip_comments_drops_block_and_line_comments() {
    let src = "// line\n/* block */\nfn main() {}\n# hash\n-- dash\n";
    let out = strip_comments(src);
    assert!(!out.contains("block"));
    assert!(!out.contains("line"));
    assert!(!out.contains("hash"));
    assert!(!out.contains("dash"));
    assert!(out.contains("fn main() {}"));
}

#[test]
fn strip_comments_preserves_string_literals() {
    let src = "let s = \"// not a comment\";\nlet c = '#';\n";
    let out = strip_comments(src);
    assert!(out.contains("\"// not a comment\""));
    assert!(out.contains("'#'"));
}

#[test]
fn strip_sql_comments_keeps_dollar_quoted() {
    let src = "CREATE FUNCTION f() RETURNS int AS $$\n-- inner comment\nSELECT 1\n$$ LANGUAGE sql;";
    let out = strip_sql_comments(src);
    assert!(out.contains("$$"));
    assert!(out.contains("SELECT 1"));
    assert!(out.contains("inner comment"));
}

#[test]
fn strip_sql_comments_strips_outside_dollar_quotes() {
    let src = "-- header comment\nSELECT 1;\nCREATE FUNCTION f() RETURNS int AS $$$x$$ LANGUAGE sql;";
    let out = strip_sql_comments(src);
    assert!(!out.contains("header comment"));
}

#[test]
fn merge_spans_combines_overlap() {
    let spans = vec![(0, 10), (5, 15), (20, 30), (25, 50)];
    let merged = merge_spans(&spans);
    assert_eq!(merged, vec![(0, 15), (20, 50)]);
}

#[test]
fn build_remainder_keeps_uncovered_gaps() {
    let source = b"AAAAABBBBCCCCDDDD";
    let spans = vec![(5, 9), (13, 17)];
    let remainder = build_remainder_code(source, &spans);
    assert_eq!(remainder, "AAAAACCCC");
}

#[test]
fn build_remainder_tolerates_out_of_bounds_spans() {
    let source = b"hello";
    let remainder = build_remainder_code(source, &[(0, 2), (100, 200), (3, 999)]);
    assert_eq!(remainder, "l");
}

#[test]
fn byte_slice_text_never_panics_on_bad_ranges() {
    let src = b"abcdef";
    assert_eq!(byte_slice_text(src, 0, 3), "abc");
    assert_eq!(byte_slice_text(src, 3, 3), "");
    assert_eq!(byte_slice_text(src, 4, 2), "");
    assert_eq!(byte_slice_text(src, 0, 100), "");
    assert_eq!(byte_slice_text(src, 50, 60), "");
}

#[test]
fn strip_js_import_source_handles_quotes() {
    assert_eq!(strip_js_import_source("\"foo\""), "foo");
    assert_eq!(strip_js_import_source("'foo'"), "foo");
    assert_eq!(strip_js_import_source("`foo`"), "foo");
    assert_eq!(strip_js_import_source("foo"), "foo");
}

#[test]
fn strip_js_import_source_keeps_mismatched_or_short_quotes() {
    assert_eq!(strip_js_import_source("'foo\""), "'foo\"");
    assert_eq!(strip_js_import_source("'"), "'");
    assert_eq!(strip_js_import_source("''"), "");
}

#[test]
fn build_remainder_of_merged_spans_equals_gaps() {
    // The remainder keeps exactly the uncovered bytes, whatever the span order.
    let source = b"0123456789";
    assert_eq!(build_remainder_code(source, &[(6, 8), (1, 3), (2, 4)]), "04589");
}

#[test]
fn byte_slice_text_replaces_invalid_utf8() {
    let src = [b'a', 0xff, b'b'];
    assert_eq!(byte_slice_text(&src, 0, 3), "a\u{FFFD}b");
}
