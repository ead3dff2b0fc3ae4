use mcp_nano::filters::{
    build_filter, collection_requests, filter_eq, optional_filter, Condition, FilterError, JsonValue,
    ToolCodeSearchScope, ToolDocumentSearchScope, upsert_batches, LengthMismatch,
};

fn text(s: &str) -> JsonValue {
    JsonValue::Str(s.to_string())
}

fn obj(pairs: Vec<(&str, JsonValue)>) -> JsonValue {
    JsonValue::Object(pairs.into_iter().map(|(k, v)| (k.to_string(), v)).collect())
}

#[test]
fn build_filter_plain_equality() {
    let f = build_filter(&obj(vec![("repo_name", text("my_repo"))])).unwrap();
    assert_eq!(f.must.len(), 1);
    assert!(f.should.is_empty());
}

#[test]
fn build_filter_and_combines_clauses() {
    let f = build_filter(&obj(vec![(
        "$and",
        JsonValue::Array(vec![
            obj(vec![("user_id", text("u1"))]),
            obj(vec![("repo_name", text("r1"))]),
        ]),
    )]))
    .unwrap();
    assert_eq!(f.must.len(), 2);
    for cond in &f.must {
        assert!(matches!(cond, Condition::Nested(_)));
    }
}

#[test]
fn build_filter_or_uses_should() {
    let f = build_filter(&obj(vec![(
        "$or",
        JsonValue::Array(vec![obj(vec![("group", text("a"))]), obj(vec![("group", text("b"))])]),
    )]))
    .unwrap();
    assert_eq!(f.should.len(), 2);
    assert!(f.must.is_empty());
}

#[test]
fn build_filter_rejects_non_object() {
    let err = build_filter(&JsonValue::Array(vec![
        JsonValue::Int(1),
        JsonValue::Int(2),
        JsonValue::Int(3),
    ]));
    assert!(err.is_err());
}

#[test]
fn build_filter_rejects_unsupported_value_type() {
    let err = build_filter(&obj(vec![(
        "key",
        JsonValue::Array(vec![JsonValue::Int(1), JsonValue::Int(2)]),
    )]));
    assert!(err.is_err());
}

#[test]
fn optional_filter_none_for_null_or_absent() {
    assert!(optional_filter(None).unwrap().is_none());
    assert!(optional_filter(Some(&JsonValue::Null)).unwrap().is_none());
}

#[test]
fn filter_eq_helper_builds_must() {
    let f = filter_eq(&[("repo_name", "r1"), ("user_id", "u1")]);
    assert_eq!(f.must.len(), 2);
}

#[test]
fn plain_clause_conditions_follow_value_types() {
    let f = build_filter(&obj(vec![
        ("lang", text("rust")),
        ("stars", JsonValue::Int(5)),
        ("public", JsonValue::Bool(true)),
        ("score", JsonValue::Number("0.5".to_string())),
    ]))
    .unwrap();
    assert_eq!(f.must.len(), 4);
    assert!(matches!(&f.must[0], Condition::MatchText(k, v) if k == "lang" && v == "rust"));
    assert!(matches!(&f.must[1], Condition::MatchInt(k, 5) if k == "stars"));
    assert!(matches!(&f.must[2], Condition::MatchBool(k, true) if k == "public"));
    assert!(matches!(&f.must[3], Condition::NearNumber(k, n) if k == "score" && n == "0.5"));
}

#[test]
fn filter_errors_name_their_cause() {
    assert!(matches!(build_filter(&text("x")), Err(FilterError::NotObject)));
    assert!(matches!(
        build_filter(&obj(vec![("$and", text("x"))])),
        Err(FilterError::AndNotArray)
    ));
    assert!(matches!(
        build_filter(&obj(vec![("$and", JsonValue::Array(vec![JsonValue::Int(1)]))])),
        Err(FilterError::AndClauseNotObject)
    ));
    assert!(matches!(
        build_filter(&obj(vec![("$or", JsonValue::Null)])),
        Err(FilterError::OrNotArray)
    ));
    assert!(matches!(
        build_filter(&obj(vec![("$or", JsonValue::Array(vec![text("y")]))])),
        Err(FilterError::OrClauseNotObject)
    ));
    assert!(matches!(
        build_filter(&obj(vec![("tags", JsonValue::Null)])),
        Err(FilterError::Unsupported(k)) if k == "tags"
    ));
}

#[test]
fn and_takes_precedence_over_or() {
    let f = build_filter(&obj(vec![
        ("$or", JsonValue::Array(vec![obj(vec![("a", text("1"))])])),
        ("$and", JsonValue::Array(vec![obj(vec![("b", text("2"))])])),
    ]))
    .unwrap();
    assert_eq!(f.must.len(), 1);
    assert!(f.should.is_empty());
}

fn code_scope(collection: &str, repos: &[&str]) -> ToolCodeSearchScope {
    ToolCodeSearchScope {
        id: "1".into(),
        tool_definition_id: "t".into(),
        collection: collection.into(),
        repo_names: repos.iter().map(|r| r.to_string()).collect(),
    }
}

#[test]
fn collection_requests_empty_defaults_to_codebase() {
    let reqs = collection_requests(&vec![], &vec![]);
    assert_eq!(reqs.len(), 1);
    assert_eq!(reqs[0].collection, "codebase");
    assert_eq!(reqs[0].where_clause, obj(vec![]));
}

#[test]
fn collection_requests_single_repo() {
    let reqs = collection_requests(&vec![code_scope("codebase", &["mcp-nano"])], &vec![]);
    assert_eq!(reqs[0].where_clause, obj(vec![("repo_name", text("mcp-nano"))]));
}

#[test]
fn collection_requests_multi_repo_or() {
    let reqs = collection_requests(&vec![code_scope("codebase", &["a", "b"])], &vec![]);
    assert_eq!(
        reqs[0].where_clause,
        obj(vec![(
            "$or",
            JsonValue::Array(vec![
                obj(vec![("repo_name", text("a"))]),
                obj(vec![("repo_name", text("b"))]),
            ]),
        )])
    );
}

#[test]
fn collection_requests_mixed_scopes_preserve_order() {
    let docs = vec![ToolDocumentSearchScope {
        id: "2".into(),
        tool_definition_id: "t".into(),
        collection: "general".into(),
        group_ids: vec!["g".into()],
    }];
    let reqs = collection_requests(&vec![code_scope("codebase", &["r"])], &docs);
    assert_eq!(reqs.len(), 2);
    assert_eq!(reqs[0].collection, "codebase");
    assert_eq!(reqs[0].where_clause, obj(vec![("repo_name", text("r"))]));
    assert_eq!(reqs[1].collection, "general");
    assert_eq!(reqs[1].where_clause, obj(vec![("group", text("g"))]));
}

#[test]
fn collection_requests_skips_empty_scope_values() {
    let reqs = collection_requests(&vec![code_scope("", &[""])], &vec![]);
    assert_eq!(reqs[0].collection, "codebase");
    assert_eq!(reqs[0].where_clause, obj(vec![]));
}

#[test]
fn document_scope_without_collection_uses_general() {
    let docs = vec![ToolDocumentSearchScope {
        id: "3".into(),
        tool_definition_id: "t".into(),
        collection: String::new(),
        group_ids: vec!["".into(), "g1".into(), "g2".into()],
    }];
    let reqs = collection_requests(&vec![], &docs);
    assert_eq!(reqs.len(), 1);
    assert_eq!(reqs[0].collection, "general");
    assert_eq!(
        reqs[0].where_clause,
        obj(vec![(
            "$or",
            JsonValue::Array(vec![obj(vec![("group", text("g1"))]), obj(vec![("group", text("g2"))])]),
        )])
    );
    let f = build_filter(&reqs[0].where_clause).unwrap();
    assert_eq!(f.should.len(), 2);
}

#[test]
fn upsert_batches_check_lengths_and_split() {
    assert_eq!(
        upsert_batches(3, 2, 3, 3, 10),
        Err(LengthMismatch { ids: 3, documents: 2, dense: 3, metadatas: 3 })
    );
    assert!(upsert_batches(3, 3, 3, 4, 10).is_err());
    assert!(upsert_batches(3, 3, 1, 3, 10).is_err());
    assert_eq!(upsert_batches(0, 0, 0, 0, 10), Ok(vec![]));
    assert_eq!(upsert_batches(5, 5, 5, 5, 2), Ok(vec![(0, 2), (2, 4), (4, 5)]));
    assert_eq!(upsert_batches(3, 3, 3, 3, 0), Ok(vec![(0, 3)]));
    assert_eq!(
        upsert_batches(600, 600, 600, 600, 0),
        Ok(vec![(0, 250), (250, 500), (500, 600)])
    );
    assert_eq!(upsert_batches(4, 4, 4, 4, usize::MAX), Ok(vec![(0, 4)]));
}

#[test]
fn scope_where_clauses_always_build_filters() {
    let none = collection_requests(&vec![code_scope("codebase", &[])], &vec![]);
    let f = build_filter(&none[0].where_clause).unwrap();
    assert!(f.must.is_empty() && f.should.is_empty());
    let one = collection_requests(&vec![code_scope("codebase", &["", "r"])], &vec![]);
    let f = build_filter(&one[0].where_clause).unwrap();
    assert_eq!(f.must.len(), 1);
    assert!(matches!(&f.must[0], Condition::MatchText(k, v) if k == "repo_name" && v == "r"));
    assert!(f.should.is_empty());
    let two = collection_requests(&vec![code_scope("codebase", &["a", "b"])], &vec![]);
    let f = build_filter(&two[0].where_clause).unwrap();
    assert!(f.must.is_empty());
    assert_eq!(f.should.len(), 2);
    for (cond, want) in f.should.iter().zip(["a", "b"]) {
        match cond {
            Condition::Nested(inner) => {
                assert!(matches!(&inner.must[0], Condition::MatchText(k, v) if k == "repo_name" && v == want));
            }
            _ => panic!("expected a nested filter"),
        }
    }
}
