//! Validation and defaults for MCP server settings, RAG query limits and
//! vector-store collections.
use vstd::prelude::*;
use crate::text::{chars_of, concat_str, string_of, trim_chars, trim_spec, str_eq};

verus! {

pub const DEFAULT_MAX_CHUNK_LIMIT: i32 = 5;
pub const MIN_MAX_CHUNK_LIMIT: i32 = 1;
pub const MAX_MAX_CHUNK_LIMIT: i32 = 50;

/// A tool's chunk limit: the default when unset, clamped to `[1, 50]`.
pub open spec fn max_chunk_limit(value: Option<i32>) -> i32 {
    let v = match value {
        Some(v) => v,
        None => DEFAULT_MAX_CHUNK_LIMIT,
    };
    if v < MIN_MAX_CHUNK_LIMIT {
        MIN_MAX_CHUNK_LIMIT
    } else if v > MAX_MAX_CHUNK_LIMIT {
        MAX_MAX_CHUNK_LIMIT
    } else {
        v
    }
}

/// Applies the default and the bounds to a tool's chunk limit.
pub fn normalize_max_chunk_limit(value: Option<i32>) -> (r: i32)
    ensures
        r == max_chunk_limit(value),
        MIN_MAX_CHUNK_LIMIT <= r <= MAX_MAX_CHUNK_LIMIT,
{
    let v = match value {
        Some(v) => v,
        None => DEFAULT_MAX_CHUNK_LIMIT,
    };
    if v < MIN_MAX_CHUNK_LIMIT {
        MIN_MAX_CHUNK_LIMIT
    } else if v > MAX_MAX_CHUNK_LIMIT {
        MAX_MAX_CHUNK_LIMIT
    } else {
        v
    }
}

/// `[A-Za-z0-9_]`.
pub open spec fn is_name_char(c: char) -> bool {
    ('a' <= c && c <= 'z') || ('A' <= c && c <= 'Z') || ('0' <= c && c <= '9') || c == '_'
}

/// Every character is an ASCII letter, digit or underscore.
pub open spec fn all_name_chars(s: Seq<char>) -> bool {
    forall|i: int| 0 <= i < s.len() ==> is_name_char(#[trigger] s[i])
}

/// Trims a server name and checks it is a non-empty run of ASCII letters,
/// digits and underscores.
pub fn validate_server_name(name: &str) -> (r: Result<String, String>)
    ensures
        match r {
            Ok(n) => n@ == trim_spec(name@) && n@.len() > 0 && all_name_chars(n@),
            Err(e) => (trim_spec(name@).len() == 0 && e@ == "Server name is required"@) || (
            trim_spec(name@).len() > 0 && !all_name_chars(trim_spec(name@)) && e@
                == "Only letters, numbers, and underscores allowed"@),
        },
        r is Ok <==> (trim_spec(name@).len() > 0 && all_name_chars(trim_spec(name@))),
{
    let t = trim_chars(&chars_of(name));
    if t.len() == 0 {
        return Err("Server name is required".to_owned());
    }
    let mut i: usize = 0;
    while i < t.len()
        invariant
            i <= t.len(),
            t@ == trim_spec(name@),
            t@.len() > 0,
            forall|k: int| 0 <= k < i ==> is_name_char(#[trigger] t@[k]),
        decreases t.len() - i,
    {
        let c = t[i];
        let ok = ('a' <= c && c <= 'z') || ('A' <= c && c <= 'Z') || ('0' <= c && c <= '9') || c
            == '_';
        if !ok {
            assert(!is_name_char(t@[i as int]));
            return Err("Only letters, numbers, and underscores allowed".to_owned());
        }
        i += 1;
    }
    Ok(string_of(&t))
}

pub const DEFAULT_LIMIT: i64 = 10;

/// A RAG query's result count: the default when unset, clamped to `[1, 100]`.
pub open spec fn query_limit(limit: Option<i64>) -> i64 {
    let n = match limit {
        Some(n) => n,
        None => DEFAULT_LIMIT,
    };
    if n < 1 {
        1
    } else if n > 100 {
        100
    } else {
        n
    }
}

/// Applies the default and the bounds to a RAG query's result count.
pub fn normalize_limit(limit: Option<i64>) -> (r: i64)
    ensures
        r == query_limit(limit),
        1 <= r <= 100,
{
    let n = match limit {
        Some(n) => n,
        None => DEFAULT_LIMIT,
    };
    if n < 1 {
        1
    } else if n > 100 {
        100
    } else {
        n
    }
}

/// The collections that may be created on demand: `codebase` and `general`.
pub open spec fn allowed_collection(name: Seq<char>) -> bool {
    name == "codebase"@ || name == "general"@
}

/// Whether a collection may be created on demand.
pub fn is_allowed_collection(name: &str) -> (r: bool)
    ensures
        r == allowed_collection(name@),
{
    str_eq(name, "codebase") || str_eq(name, "general")
}

/// The guard run before creating a collection: the refusal message for a
/// name outside the allow-list.
pub fn check_collection_allowed(name: &str) -> (r: Result<(), String>)
    ensures
        r is Ok <==> allowed_collection(name@),
        match r {
            Err(e) => e@ == "collection '"@ + name@
                + "' is not allowed for auto-create; allowed: [\"codebase\", \"general\"]"@,
            Ok(_) => true,
        },
{
    if is_allowed_collection(name) {
        Ok(())
    } else {
        let head = concat_str("collection '", name);
        Err(concat_str(head.as_str(), "' is not allowed for auto-create; allowed: [\"codebase\", \"general\"]"))
    }
}

/// Whether `name` is among the existing collections (no creation needed).
pub fn collection_exists(existing: &Vec<String>, name: &str) -> (r: bool)
    ensures
        r == exists|i: int| 0 <= i < existing@.len() && #[trigger] existing@[i]@ == name@,
{
    let mut i: usize = 0;
    while i < existing.len()
        invariant
            i <= existing.len(),
            forall|k: int| 0 <= k < i ==> #[trigger] existing@[k]@ != name@,
        decreases existing.len() - i,
    {
        if str_eq(existing[i].as_str(), name) {
            return true;
        }
        i += 1;
    }
    false
}

/// Which fields a vector-store query returns.
#[derive(Debug, Clone, Default)]
pub struct Include {
    pub metadatas: bool,
    pub documents: bool,
    pub distances: bool,
}

impl Include {
    /// Every field.
    pub fn all() -> (r: Self)
        ensures
            r.metadatas && r.documents && r.distances,
    {
        Include { metadatas: true, documents: true, distances: true }
    }
}

} // verus!
