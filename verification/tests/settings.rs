use mcp_nano::settings::{
    check_collection_allowed, collection_exists, is_allowed_collection, normalize_limit,
    normalize_max_chunk_limit, validate_server_name, Include,
};

#[test]
fn validate_server_name_trims_and_accepts() {
    assert_eq!(validate_server_name("  My_Server1 ").unwrap(), "My_Server1");
}

#[test]
fn validate_server_name_rejects_empty() {
    assert!(validate_server_name("").is_err());
    assert!(validate_server_name("   ").is_err());
}

#[test]
fn validate_server_name_rejects_invalid_chars() {
    for bad in ["has space", "dash-name", "dot.name", "slash/name", "emoji🦀"] {
        assert!(validate_server_name(bad).is_err(), "{bad} should fail");
    }
}

#[test]
fn validate_server_name_error_messages() {
    assert_eq!(validate_server_name(" ").unwrap_err(), "Server name is required");
    assert_eq!(
        validate_server_name("a-b").unwrap_err(),
        "Only letters, numbers, and underscores allowed"
    );
}

#[test]
fn ensure_collection_rejects_unknown_name() {
    assert!(is_allowed_collection("codebase"));
    assert!(is_allowed_collection("general"));
    assert!(!is_allowed_collection("unknown_collection"));
}

#[test]
fn check_collection_allowed_reports_allow_list() {
    assert!(check_collection_allowed("general").is_ok());
    assert_eq!(
        check_collection_allowed("other").unwrap_err(),
        "collection 'other' is not allowed for auto-create; allowed: [\"codebase\", \"general\"]"
    );
    let existing = vec!["codebase".to_string()];
    assert!(collection_exists(&existing, "codebase"));
    assert!(!collection_exists(&existing, "general"));
}

#[test]
fn normalize_limit_clamps() {
    assert_eq!(normalize_limit(None), 10);
    assert_eq!(normalize_limit(Some(0)), 1);
    assert_eq!(normalize_limit(Some(5)), 5);
    assert_eq!(normalize_limit(Some(200)), 100);
}

#[test]
fn normalize_max_chunk_limit_defaults_and_clamps() {
    assert_eq!(normalize_max_chunk_limit(None), 5);
    assert_eq!(normalize_max_chunk_limit(Some(0)), 1);
    assert_eq!(normalize_max_chunk_limit(Some(7)), 7);
    assert_eq!(normalize_max_chunk_limit(Some(500)), 50);
}

#[test]
fn include_all_selects_every_field() {
    let inc = Include::all();
    assert!(inc.metadatas && inc.documents && inc.distances);
}
