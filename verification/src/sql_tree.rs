//! The SQL chunker's tree pass and pipeline: statements the parser
//! recognises become chunks named by their object reference, top-level
//! parse errors become chunks read from their text; then every chunk and
//! the text the chunks leave are cut again at statement keywords, `ALTER
//! TABLE` chunks are merged per table and unrecognised statements dropped.
//! The referenced tables are the dependencies.
use vstd::prelude::*;
use vstd::string::StringSliceAdditionalSpecFns;
use crate::syntax::{
    SyntaxNode, NodeView, nodes_view, node_text, named_children, last_at_depth, text_of,
    named_children_of, tracks_last, track_node, lemma_last_at_depth_bounds,
};
use crate::rust_chunks::ancestor_at;
use crate::c_chunks::skipped;
use crate::java_chunks::contains_string;
use crate::code_chunk::CodeChunk;
use crate::chunk_types::{CodeChunkKind, SqlFields, opt_view};
use crate::sql::base_name;
use crate::sql::{
    generate_chunk_id, strip_brackets, unbracketed, get_statement_label, upper_spec, spaced,
    infer_statement_type, infer_schema_and_object_name, merge_alter_table_chunks, filter_junk_chunks,
    non_alter, alter_keys, alter_group, is_merged_alter, keeps_chunk,
};
use crate::sql_split::{regex_split_sql_text, sql_statements, is_statement_chunk};
use crate::spans::{Span, byte_slice_text, build_remainder_code, remainder_bytes};
use crate::code_chunk::now_iso;
use crate::chunk_types::copy_strings;
use crate::text::{trim_spec, trim_str, str_eq, utf8_lossy_spec};
use crate::seqtext::{views, join, join_strings, push_string};

verus! {

/// The nodes, in document order, of the tree tree-sitter's SQL grammar
/// parses the source into; `None` when parsing gives no tree.
pub uninterp spec fn sql_syntax_spec(source: Seq<u8>) -> Option<Seq<NodeView>>;

/// `Parser::parse` with the SQL grammar, the tree walked in document order
/// with a `TreeCursor` (`kind`, `is_named`, `start_byte`, `end_byte`,
/// `field_name`, `depth` of each node). The contract names the result: a
/// function of the source alone.
#[verifier::external_body]
pub(crate) fn parse_sql(source: &[u8]) -> (r: Option<Vec<SyntaxNode>>)
    ensures
        match r {
            Some(v) => sql_syntax_spec(source@) == Some(nodes_view(v@)),
            None => sql_syntax_spec(source@) is None,
        },
{
    let mut parser = tree_sitter::Parser::new();
    parser.set_language(&tree_sitter_sequel::LANGUAGE.into()).ok()?;
    let tree = parser.parse(source, None)?;
    let (mut c, mut out) = (tree.walk(), Vec::new());
    loop {
        let n = c.node();
        out.push(SyntaxNode { kind: n.kind().into(), named: n.is_named(), start: n.start_byte(), end: n.end_byte(), field: c.field_name().map(Into::into), depth: c.depth() as usize });
        if !c.goto_first_child() {
            while !c.goto_next_sibling() {
                if !c.goto_parent() {
                    return Some(out);
                }
            }
        }
    }
}

/// The statement kinds that get a chunk of their own.
pub open spec fn statement_kinds() -> Seq<Seq<char>> {
    seq![
        "create_table"@,
        "create_view"@,
        "create_index"@,
        "create_function"@,
        "create_procedure"@,
        "create_trigger"@,
        "create_type"@,
        "create_sequence"@,
        "create_schema"@,
        "create_database"@,
        "create_extension"@,
        "create_role"@,
        "create_policy"@,
        "create_materialized_view"@,
        "alter_table"@,
        "alter_view"@,
        "alter_index"@,
        "alter_schema"@,
        "alter_sequence"@,
        "alter_type"@,
        "alter_role"@,
        "alter_policy"@,
        "alter_database"@,
        "alter_materialized_view"@,
        "drop_table"@,
        "drop_view"@,
        "drop_index"@,
        "drop_function"@,
        "drop_procedure"@,
        "drop_type"@,
        "drop_extension"@,
        "drop_sequence"@,
        "drop_schema"@,
        "drop_database"@,
        "drop_role"@,
        "drop_materialized_view"@,
        "insert"@,
        "select"@,
        "update"@,
        "delete"@,
        "merge"@,
        "grant"@,
        "revoke"@,
        "transaction"@,
    ]
}

pub fn is_statement_kind(k: &str) -> (r: bool)
    ensures
        r == statement_kinds().contains(k@),
{
    let r = str_eq(k, "create_table")
        || str_eq(k, "create_view")
        || str_eq(k, "create_index")
        || str_eq(k, "create_function")
        || str_eq(k, "create_procedure")
        || str_eq(k, "create_trigger")
        || str_eq(k, "create_type")
        || str_eq(k, "create_sequence")
        || str_eq(k, "create_schema")
        || str_eq(k, "create_database")
        || str_eq(k, "create_extension")
        || str_eq(k, "create_role")
        || str_eq(k, "create_policy")
        || str_eq(k, "create_materialized_view")
        || str_eq(k, "alter_table")
        || str_eq(k, "alter_view")
        || str_eq(k, "alter_index")
        || str_eq(k, "alter_schema")
        || str_eq(k, "alter_sequence")
        || str_eq(k, "alter_type")
        || str_eq(k, "alter_role")
        || str_eq(k, "alter_policy")
        || str_eq(k, "alter_database")
        || str_eq(k, "alter_materialized_view")
        || str_eq(k, "drop_table")
        || str_eq(k, "drop_view")
        || str_eq(k, "drop_index")
        || str_eq(k, "drop_function")
        || str_eq(k, "drop_procedure")
        || str_eq(k, "drop_type")
        || str_eq(k, "drop_extension")
        || str_eq(k, "drop_sequence")
        || str_eq(k, "drop_schema")
        || str_eq(k, "drop_database")
        || str_eq(k, "drop_role")
        || str_eq(k, "drop_materialized_view")
        || str_eq(k, "insert")
        || str_eq(k, "select")
        || str_eq(k, "update")
        || str_eq(k, "delete")
        || str_eq(k, "merge")
        || str_eq(k, "grant")
        || str_eq(k, "revoke")
        || str_eq(k, "transaction");
    proof {
        if r {
            assert(statement_kinds().contains(k@));
        } else {
            assert forall|i: int| 0 <= i < statement_kinds().len() implies statement_kinds()[i] != k@ by {}
        }
    }
    r
}

pub open spec fn opt_str(o: Option<&str>) -> Option<Seq<char>> {
    match o {
        Some(d) => Some(d@),
        None => None,
    }
}

pub open spec fn parent_of(t: Seq<NodeView>, i: int) -> Option<int> {
    last_at_depth(t, t[i].depth - 1, i)
}

/// The construct a `statement` node holds, when its first named child is
/// of a statement kind.
pub open spec fn statement_inner(t: Seq<NodeView>, i: int) -> Option<int> {
    let kids = named_children(t, i);
    if t[i].kind == "statement"@ && kids.len() > 0 && statement_kinds().contains(t[kids[0]].kind) {
        Some(kids[0])
    } else {
        None
    }
}

/// A parse error directly under the program (a procedure or block the
/// grammar does not know).
pub open spec fn is_root_error(t: Seq<NodeView>, i: int) -> bool {
    t[i].kind == "ERROR"@ && match parent_of(t, i) {
        Some(p) => t[p].kind == "program"@,
        None => false,
    }
}

pub open spec fn is_sql_chunk_node(t: Seq<NodeView>, i: int) -> bool {
    statement_inner(t, i) is Some || is_root_error(t, i)
}

/// The chunked nodes among the first `n`, walking in document order and
/// not into a chunked node; and the depth of the chunked node the walk is
/// inside of, if any.
pub open spec fn sql_walk(t: Seq<NodeView>, n: int) -> (Seq<int>, Option<usize>)
    decreases n,
{
    if n <= 0 {
        (Seq::empty(), None)
    } else {
        let prev = sql_walk(t, n - 1);
        if skipped(t, n - 1, prev.1) {
            prev
        } else if is_sql_chunk_node(t, n - 1) {
            (prev.0.push(n - 1), Some(t[n - 1].depth))
        } else {
            (prev.0, None)
        }
    }
}

/// The first node from `k` on that is not inside node `j`.
pub open spec fn after_subtree(t: Seq<NodeView>, j: int, k: int) -> int
    decreases t.len() - k,
{
    if k < 0 || k >= t.len() {
        t.len() as int
    } else if t[k].depth <= t[j].depth {
        k
    } else {
        after_subtree(t, j, k + 1)
    }
}

/// Where a statement's text ends: after the `;` that follows it as its
/// next sibling, else at its own end.
pub open spec fn statement_end(t: Seq<NodeView>, j: int) -> usize {
    let k = after_subtree(t, j, j + 1);
    if 0 <= k < t.len() && t[k].depth == t[j].depth && t[k].kind == ";"@ {
        t[k].end
    } else {
        t[j].end
    }
}

/// Lossy text of `src[s..e]`, empty for an invalid range.
pub open spec fn slice_text(src: Seq<u8>, s: usize, e: usize) -> Seq<char> {
    if s > e || e > src.len() {
        Seq::empty()
    } else {
        utf8_lossy_spec(src.subrange(s as int, e as int))
    }
}

/// The children of node `i` of kind `k` from node `j` on, in order.
pub open spec fn kind_children_from(t: Seq<NodeView>, i: int, k: Seq<char>, j: int) -> Seq<int>
    decreases t.len() - j,
{
    if j < 0 || j >= t.len() || t[j].depth <= t[i].depth {
        Seq::empty()
    } else if t[j].depth == t[i].depth + 1 && t[j].kind == k {
        seq![j] + kind_children_from(t, i, k, j + 1)
    } else {
        kind_children_from(t, i, k, j + 1)
    }
}

pub open spec fn kind_children(t: Seq<NodeView>, i: int, k: Seq<char>) -> Seq<int> {
    kind_children_from(t, i, k, i + 1)
}

/// (schema, name) an object reference gives: its first and last
/// identifiers when it has two or more, its identifier when one, else its
/// own text (none when empty); brackets removed.
pub open spec fn reference_names(t: Seq<NodeView>, src: Seq<u8>, o: int) -> (Option<Seq<char>>, Option<Seq<char>>) {
    let ids = kind_children(t, o, "identifier"@);
    if ids.len() >= 2 {
        (Some(unbracketed(node_text(src, t[ids[0]]))), Some(unbracketed(node_text(src, t[ids.last()]))))
    } else if ids.len() == 1 {
        (None, Some(unbracketed(node_text(src, t[ids[0]]))))
    } else {
        let raw = unbracketed(trim_spec(node_text(src, t[o])));
        if raw.len() == 0 {
            (None, None)
        } else {
            (None, Some(raw))
        }
    }
}

/// The names of a statement construct: those of its first object
/// reference child.
pub open spec fn statement_names(t: Seq<NodeView>, src: Seq<u8>, inner: int) -> (Option<Seq<char>>, Option<Seq<char>>) {
    let refs = kind_children(t, inner, "object_reference"@);
    if refs.len() > 0 {
        reference_names(t, src, refs[0])
    } else {
        (None, None)
    }
}

/// The chunk of a recognised statement `j` with construct `inner`: its text
/// through the `;` after it, its construct's label as statement type, the
/// names of its object reference, identified by the object's name (else the
/// construct's kind).
pub open spec fn is_tree_statement_chunk(c: CodeChunk, t: Seq<NodeView>, src: Seq<u8>, j: int, inner: int, file_path: Seq<char>, deps: Seq<Seq<char>>, db: Option<Seq<char>>) -> bool {
    let names = statement_names(t, src, inner);
    let ident = match names.1 {
        Some(o) => o,
        None => t[inner].kind,
    };
    &&& exists|suffix: Seq<char>| suffix.len() == 8 && c.id@ == base_name(file_path) + "-"@ + ident + "-"@ + suffix
    &&& c.repo_name@.len() == 0
    &&& c.file_name@ == base_name(file_path)
    &&& c.code@ == slice_text(src, t[j].start, statement_end(t, j))
    &&& c.chunk_type@ == "sql_statement"@
    &&& views(c.dependencies@) == deps
    &&& c.kind matches CodeChunkKind::Sql(f) && {
        &&& opt_view(f.statement_type) == Some(upper_spec(spaced(t[inner].kind)))
        &&& opt_view(f.schema_name) == names.0
        &&& opt_view(f.object_name) == names.1
        &&& opt_view(f.database_name) == db
    }
}

/// The range a chunked node takes out of the remainder.
pub open spec fn sql_node_span(t: Seq<NodeView>, j: int) -> Span {
    if statement_inner(t, j) is Some {
        (t[j].start, statement_end(t, j))
    } else {
        (t[j].start, t[j].end)
    }
}

pub open spec fn sql_spans(t: Seq<NodeView>) -> Seq<Span> {
    let idx = sql_walk(t, t.len() as int).0;
    Seq::new(idx.len(), |k: int| sql_node_span(t, idx[k]))
}

/// `raw` holds the tree pass's chunks, one per chunked node in document
/// order, and `errs` which of them come from parse errors.
pub open spec fn raw_chunks_ok(raw: Seq<CodeChunk>, errs: Seq<bool>, t: Seq<NodeView>, src: Seq<u8>, file_path: Seq<char>, deps: Seq<Seq<char>>, db: Option<Seq<char>>) -> bool {
    let idx = sql_walk(t, t.len() as int).0;
    &&& raw.len() == idx.len()
    &&& errs.len() == idx.len()
    &&& forall|k: int| 0 <= k < idx.len() ==> match statement_inner(t, #[trigger] idx[k]) {
        Some(inner) => !errs[k] && is_tree_statement_chunk(raw[k], t, src, idx[k], inner, file_path, deps, db),
        None => errs[k] && is_statement_chunk(raw[k], node_text(src, t[idx[k]]), file_path, deps, db),
    }
}

/// `r` holds one statement chunk per statement of `stmts`, in order.
pub open spec fn statements_ok(r: Seq<CodeChunk>, stmts: Seq<Seq<char>>, file_path: Seq<char>, deps: Seq<Seq<char>>, db: Option<Seq<char>>) -> bool {
    &&& r.len() == stmts.len()
    &&& forall|k: int| 0 <= k < r.len() ==> is_statement_chunk(#[trigger] r[k], stmts[k], file_path, deps, db)
}

/// `r` holds the chunks after cutting each raw chunk again at statement
/// keywords: a chunk with statements is replaced by their chunks, a parse
/// error chunk without any is dropped, any other chunk is kept.
pub open spec fn resplit_ok(r: Seq<CodeChunk>, raw: Seq<CodeChunk>, errs: Seq<bool>, file_path: Seq<char>, deps: Seq<Seq<char>>, db: Option<Seq<char>>) -> bool
    decreases raw.len(),
{
    if raw.len() == 0 {
        r.len() == 0
    } else {
        let c = raw.last();
        let stmts = sql_statements(c.code@);
        if stmts.len() > 0 {
            &&& r.len() >= stmts.len()
            &&& statements_ok(r.skip(r.len() - stmts.len()), stmts, file_path, deps, db)
            &&& resplit_ok(r.take(r.len() - stmts.len()), raw.drop_last(), errs.drop_last(), file_path, deps, db)
        } else if errs.last() {
            resplit_ok(r, raw.drop_last(), errs.drop_last(), file_path, deps, db)
        } else {
            &&& r.len() >= 1
            &&& r.last() == c
            &&& resplit_ok(r.drop_last(), raw.drop_last(), errs.drop_last(), file_path, deps, db)
        }
    }
}

/// The statements of the text the chunked nodes leave (none when it is
/// blank).
pub open spec fn remainder_statements(src: Seq<u8>, spans: Seq<Span>) -> Seq<Seq<char>> {
    let rem = utf8_lossy_spec(remainder_bytes(src, spans));
    if trim_spec(rem).len() > 0 {
        sql_statements(rem)
    } else {
        Seq::empty()
    }
}

/// `m` is what merging the `ALTER TABLE` chunks of `s` gives.
pub open spec fn alters_merged(m: Seq<CodeChunk>, s: Seq<CodeChunk>, file_path: Seq<char>, deps: Seq<Seq<char>>, db: Option<Seq<char>>) -> bool {
    &&& m.len() == non_alter(s).len() + alter_keys(s).len()
    &&& m.take(non_alter(s).len() as int) == non_alter(s)
    &&& forall|j: int| 0 <= j < alter_keys(s).len() ==> is_merged_alter(#[trigger] m[non_alter(s).len() + j], alter_group(s, alter_keys(s)[j]), alter_keys(s)[j], file_path, deps, db)
}

/// `r` holds the SQL chunks of parsed source `src` with tree `t`: the tree
/// pass's chunks, each cut again at statement keywords, then the statements
/// of the text the tree pass leaves, `ALTER TABLE` chunks merged, chunks of
/// unrecognised statement types dropped.
pub open spec fn sql_pipeline_ok(r: Seq<CodeChunk>, t: Seq<NodeView>, src: Seq<u8>, file_path: Seq<char>, deps: Seq<Seq<char>>, db: Option<Seq<char>>) -> bool {
    exists|raw: Seq<CodeChunk>, errs: Seq<bool>, p2: Seq<CodeChunk>, p3: Seq<CodeChunk>, m: Seq<CodeChunk>| {
        &&& raw_chunks_ok(raw, errs, t, src, file_path, deps, db)
        &&& resplit_ok(p2, raw, errs, file_path, deps, db)
        &&& statements_ok(p3, remainder_statements(src, sql_spans(t)), file_path, deps, db)
        &&& alters_merged(m, p2 + p3, file_path, deps, db)
        &&& r == m.filter(|c: CodeChunk| keeps_chunk(c))
    }
}

// ---------------------------------------------------------------------------
// The tree pass
// ---------------------------------------------------------------------------

fn parent_index(t: &Vec<SyntaxNode>, last: &Vec<Option<usize>>, i: usize) -> (r: Option<usize>)
    requires
        i < t@.len(),
        tracks_last(nodes_view(t@), last@, i as int),
    ensures
        match r {
            Some(p) => parent_of(nodes_view(t@), i as int) == Some(p as int) && p < i,
            None => parent_of(nodes_view(t@), i as int) is None,
        },
{
    let ghost tv = nodes_view(t@);
    assert(tv[i as int] == t@[i as int]@);
    let d = t[i].depth;
    if d == 0 {
        proof {
            lemma_last_at_depth_bounds(tv, -1, i as int);
        }
        None
    } else {
        ancestor_at(t, last, i, d - 1)
    }
}

fn statement_inner_of(t: &Vec<SyntaxNode>, i: usize) -> (r: Option<usize>)
    requires
        i < t@.len(),
    ensures
        match r {
            Some(c) => statement_inner(nodes_view(t@), i as int) == Some(c as int) && c < t@.len(),
            None => statement_inner(nodes_view(t@), i as int) is None,
        },
{
    assert(nodes_view(t@)[i as int] == t@[i as int]@);
    if !str_eq(t[i].kind.as_str(), "statement") {
        return None;
    }
    let kids = named_children_of(t, i);
    if kids.len() == 0 {
        return None;
    }
    let c = kids[0];
    assert(nodes_view(t@)[c as int] == t@[c as int]@);
    if is_statement_kind(t[c].kind.as_str()) {
        Some(c)
    } else {
        None
    }
}

fn statement_end_of(t: &Vec<SyntaxNode>, j: usize) -> (r: usize)
    requires
        j < t@.len(),
    ensures
        r == statement_end(nodes_view(t@), j as int),
{
    let ghost tv = nodes_view(t@);
    assert(tv[j as int] == t@[j as int]@);
    let d = t[j].depth;
    let n = t.len();
    let mut k = j + 1;
    while k < t.len() && t[k].depth > d
        invariant
            j < k <= t@.len(),
            tv == nodes_view(t@),
            d == tv[j as int].depth,
            after_subtree(tv, j as int, k as int) == after_subtree(tv, j as int, j + 1),
        decreases t.len() - k,
    {
        assert(tv[k as int] == t@[k as int]@);
        k += 1;
    }
    if k < t.len() {
        assert(tv[k as int] == t@[k as int]@);
        if t[k].depth == d && str_eq(t[k].kind.as_str(), ";") {
            return t[k].end;
        }
    }
    t[j].end
}

pub(crate) fn kind_children_of(t: &Vec<SyntaxNode>, i: usize, k: &str) -> (r: Vec<usize>)
    requires
        i < t@.len(),
    ensures
        r@.len() == kind_children(nodes_view(t@), i as int, k@).len(),
        forall|q: int| 0 <= q < r@.len() ==> r@[q] as int == kind_children(nodes_view(t@), i as int, k@)[q] && #[trigger] r@[q] < t@.len(),
{
    let ghost tv = nodes_view(t@);
    assert(tv[i as int] == t@[i as int]@);
    let d = t[i].depth;
    let n = t.len();
    let mut out: Vec<usize> = Vec::new();
    let mut j = i + 1;
    while j < t.len() && t[j].depth > d
        invariant
            i < j <= t@.len(),
            tv == nodes_view(t@),
            d == tv[i as int].depth,
            out@.len() + kind_children_from(tv, i as int, k@, j as int).len() == kind_children(tv, i as int, k@).len(),
            forall|q: int| 0 <= q < out@.len() ==> out@[q] as int == kind_children(tv, i as int, k@)[q] && #[trigger] out@[q] < t@.len(),
            forall|q: int| 0 <= q < kind_children_from(tv, i as int, k@, j as int).len() ==> kind_children_from(tv, i as int, k@, j as int)[q] == kind_children(tv, i as int, k@)[out@.len() + q],
        decreases t.len() - j,
    {
        assert(tv[j as int] == t@[j as int]@);
        if t[j].depth == d + 1 && str_eq(t[j].kind.as_str(), k) {
            let ghost rest = kind_children_from(tv, i as int, k@, j + 1);
            assert(kind_children_from(tv, i as int, k@, j as int) == seq![j as int] + rest);
            assert(kind_children_from(tv, i as int, k@, j as int)[0] == j as int);
            out.push(j);
            assert forall|q: int| 0 <= q < rest.len() implies rest[q] == kind_children(tv, i as int, k@)[out@.len() + q] by {
                assert(kind_children_from(tv, i as int, k@, j as int)[q + 1] == rest[q]);
            }
        }
        j += 1;
    }
    proof {
        if j < t@.len() {
            assert(tv[j as int] == t@[j as int]@);
        }
        assert(kind_children_from(tv, i as int, k@, j as int).len() == 0);
    }
    out
}

fn reference_names_of(t: &Vec<SyntaxNode>, src: &[u8], o: usize) -> (r: (Option<String>, Option<String>))
    requires
        o < t@.len(),
    ensures
        (opt_view(r.0), opt_view(r.1)) == reference_names(nodes_view(t@), src@, o as int),
{
    let ghost tv = nodes_view(t@);
    let ids = kind_children_of(t, o, "identifier");
    let m = ids.len();
    if m >= 2 {
        assert(tv[ids@[0] as int] == t@[ids@[0] as int]@);
        assert(tv[ids@[m - 1] as int] == t@[ids@[m - 1] as int]@);
        let schema = strip_brackets(text_of(src, &t[ids[0]]).as_str());
        let name = strip_brackets(text_of(src, &t[ids[m - 1]]).as_str());
        (Some(schema), Some(name))
    } else if m == 1 {
        assert(tv[ids@[0] as int] == t@[ids@[0] as int]@);
        (None, Some(strip_brackets(text_of(src, &t[ids[0]]).as_str())))
    } else {
        assert(tv[o as int] == t@[o as int]@);
        let raw = strip_brackets(trim_str(text_of(src, &t[o]).as_str()).as_str());
        if raw.as_str().is_empty() {
            (None, None)
        } else {
            (None, Some(raw))
        }
    }
}

fn statement_chunk_of(t: &Vec<SyntaxNode>, src: &[u8], j: usize, inner: usize, file_path: &str, deps: &Vec<String>, database_name: Option<&str>) -> (c: CodeChunk)
    requires
        j < t@.len(),
        inner < t@.len(),
    ensures
        is_tree_statement_chunk(c, nodes_view(t@), src@, j as int, inner as int, file_path@, views(deps@), opt_str(database_name)),
{
    let ghost tv = nodes_view(t@);
    assert(tv[j as int] == t@[j as int]@);
    assert(tv[inner as int] == t@[inner as int]@);
    let end = statement_end_of(t, j);
    let code = byte_slice_text(src, t[j].start, end);
    let refs = kind_children_of(t, inner, "object_reference");
    let names = if refs.len() > 0 {
        reference_names_of(t, src, refs[0])
    } else {
        (None, None)
    };
    let (schema_name, object_name) = names;
    let ident = match &object_name {
        Some(o) => o.clone(),
        None => t[inner].kind.clone(),
    };
    let file_name = match crate::languages::path_file_name(file_path) {
        Some(n) => n,
        None => file_path.to_owned(),
    };
    CodeChunk {
        id: generate_chunk_id(file_path, ident.as_str()),
        repo_name: String::new(),
        file_name,
        code,
        chunk_type: "sql_statement".to_owned(),
        dependencies: copy_strings(deps),
        created_at: now_iso(),
        kind: CodeChunkKind::Sql(SqlFields {
            statement_type: Some(get_statement_label(t[inner].kind.as_str())),
            object_name,
            schema_name,
            database_name: match database_name {
                Some(d) => Some(d.to_owned()),
                None => None,
            },
        }),
    }
}

fn error_chunk_of(t: &Vec<SyntaxNode>, src: &[u8], j: usize, file_path: &str, deps: &Vec<String>, database_name: Option<&str>) -> (c: CodeChunk)
    requires
        j < t@.len(),
    ensures
        is_statement_chunk(c, node_text(src@, nodes_view(t@)[j as int]), file_path@, views(deps@), opt_str(database_name)),
{
    let ghost tv = nodes_view(t@);
    assert(tv[j as int] == t@[j as int]@);
    let code = text_of(src, &t[j]);
    let statement_type = infer_statement_type(code.as_str());
    let (schema_name, object_name) = infer_schema_and_object_name(code.as_str());
    let ident = match &object_name {
        Some(o) => o.clone(),
        None => "unknown".to_owned(),
    };
    let file_name = match crate::languages::path_file_name(file_path) {
        Some(n) => n,
        None => file_path.to_owned(),
    };
    CodeChunk {
        id: generate_chunk_id(file_path, ident.as_str()),
        repo_name: String::new(),
        file_name,
        code,
        chunk_type: "sql_statement".to_owned(),
        dependencies: copy_strings(deps),
        created_at: now_iso(),
        kind: CodeChunkKind::Sql(SqlFields {
            statement_type: Some(statement_type),
            object_name,
            schema_name,
            database_name: match database_name {
                Some(d) => Some(d.to_owned()),
                None => None,
            },
        }),
    }
}

/// The tree pass over a parsed SQL file: the raw chunks in document order,
/// which of them come from parse errors, and the ranges they cover.
pub fn tree_statement_chunks(nodes: &Vec<SyntaxNode>, source: &[u8], file_path: &str, deps: &Vec<String>, database_name: Option<&str>) -> (r: (Vec<CodeChunk>, Vec<bool>, Vec<Span>))
    ensures
        raw_chunks_ok(r.0@, r.1@, nodes_view(nodes@), source@, file_path@, views(deps@), opt_str(database_name)),
        r.2@ == sql_spans(nodes_view(nodes@)),
{
    let ghost tv = nodes_view(nodes@);
    let ghost db = opt_str(database_name);
    let mut raw: Vec<CodeChunk> = Vec::new();
    let mut errs: Vec<bool> = Vec::new();
    let mut spans: Vec<Span> = Vec::new();
    let mut last: Vec<Option<usize>> = Vec::new();
    let mut skip: Option<usize> = None;
    let mut i: usize = 0;
    while i < nodes.len()
        invariant
            i <= nodes@.len(),
            tv == nodes_view(nodes@),
            db == opt_str(database_name),
            tracks_last(tv, last@, i as int),
            skip == sql_walk(tv, i as int).1,
            raw@.len() == sql_walk(tv, i as int).0.len(),
            errs@.len() == raw@.len(),
            spans@ == Seq::new(sql_walk(tv, i as int).0.len(), |k: int| sql_node_span(tv, sql_walk(tv, i as int).0[k])),
            forall|k: int| 0 <= k < raw@.len() ==> match statement_inner(tv, #[trigger] sql_walk(tv, i as int).0[k]) {
                Some(inner) => !errs@[k] && is_tree_statement_chunk(raw@[k], tv, source@, sql_walk(tv, i as int).0[k], inner, file_path@, views(deps@), db),
                None => errs@[k] && is_statement_chunk(raw@[k], node_text(source@, tv[sql_walk(tv, i as int).0[k]]), file_path@, views(deps@), db),
            },
        decreases nodes.len() - i,
    {
        assert(tv[i as int] == nodes@[i as int]@);
        let ghost prev_idx = sql_walk(tv, i as int).0;
        let ghost prev_raw = raw@;
        let ghost prev_errs = errs@;
        let skipping = match skip {
            Some(sd) => nodes[i].depth > sd,
            None => false,
        };
        if !skipping {
            let mut pushed = false;
            match statement_inner_of(nodes, i) {
                Some(inner) => {
                    let c = statement_chunk_of(nodes, source, i, inner, file_path, deps, database_name);
                    raw.push(c);
                    errs.push(false);
                    spans.push((nodes[i].start, statement_end_of(nodes, i)));
                    pushed = true;
                },
                None => {
                    let is_err = str_eq(nodes[i].kind.as_str(), "ERROR") && match parent_index(nodes, &last, i) {
                        Some(p) => {
                            assert(tv[p as int] == nodes@[p as int]@);
                            str_eq(nodes[p].kind.as_str(), "program")
                        },
                        None => false,
                    };
                    if is_err {
                        let c = error_chunk_of(nodes, source, i, file_path, deps, database_name);
                        raw.push(c);
                        errs.push(true);
                        spans.push((nodes[i].start, nodes[i].end));
                        pushed = true;
                    }
                },
            }
            if pushed {
                skip = Some(nodes[i].depth);
                let ghost idx = sql_walk(tv, i + 1).0;
                assert(idx == prev_idx.push(i as int));
                assert(spans@ =~= Seq::new(idx.len(), |k: int| sql_node_span(tv, idx[k])));
                assert forall|k: int| 0 <= k < raw@.len() implies match statement_inner(tv, #[trigger] idx[k]) {
                    Some(inner) => !errs@[k] && is_tree_statement_chunk(raw@[k], tv, source@, idx[k], inner, file_path@, views(deps@), db),
                    None => errs@[k] && is_statement_chunk(raw@[k], node_text(source@, tv[idx[k]]), file_path@, views(deps@), db),
                } by {
                    if k < prev_raw.len() {
                        assert(raw@[k] == prev_raw[k]);
                        assert(errs@[k] == prev_errs[k]);
                        assert(idx[k] == prev_idx[k]);
                    }
                }
            } else {
                skip = None;
                assert(sql_walk(tv, i + 1).0 == prev_idx);
            }
        } else {
            assert(sql_walk(tv, i + 1) == sql_walk(tv, i as int));
        }
        track_node(nodes, &mut last, i);
        i += 1;
    }
    (raw, errs, spans)
}

/// Cuts every raw chunk again at statement keywords (see `resplit_ok`).
pub fn resplit_sql_chunks(raw: Vec<CodeChunk>, errs: &Vec<bool>, file_path: &str, deps: &Vec<String>, database_name: Option<&str>) -> (r: Vec<CodeChunk>)
    requires
        errs@.len() == raw@.len(),
    ensures
        resplit_ok(r@, raw@, errs@, file_path@, views(deps@), opt_str(database_name)),
{
    let ghost orig = raw@;
    let ghost db = opt_str(database_name);
    let mut rest = raw;
    let mut out: Vec<CodeChunk> = Vec::new();
    let mut k: usize = 0;
    let n0 = rest.len();
    assert(orig.skip(0) =~= orig);
    while rest.len() > 0
        invariant
            k <= orig.len(),
            n0 == orig.len(),
            errs@.len() == orig.len(),
            rest@ == orig.skip(k as int),
            db == opt_str(database_name),
            resplit_ok(out@, orig.take(k as int), errs@.take(k as int), file_path@, views(deps@), db),
        decreases rest@.len(),
    {
        let c = rest.remove(0);
        assert(orig.skip(k as int).skip(1) =~= orig.skip(k + 1));
        assert(c == orig[k as int]);
        assert(orig.take(k + 1).drop_last() =~= orig.take(k as int));
        assert(errs@.take(k + 1).drop_last() =~= errs@.take(k as int));
        assert(orig.take(k + 1).last() == c);
        assert(errs@.take(k + 1).last() == errs@[k as int]);
        let ghost before = out@;
        let sub = regex_split_sql_text(c.code.as_str(), file_path, deps, database_name);
        if sub.len() > 0 {
            let mut sub = sub;
            let ghost subv = sub@;
            out.append(&mut sub);
            assert(out@.take(before.len() as int) =~= before);
            assert(out@.skip(out@.len() - subv.len()) =~= subv);
            assert(statements_ok(out@.skip(out@.len() - subv.len()), sql_statements(c.code@), file_path@, views(deps@), db));
        } else if errs[k] {
        } else {
            out.push(c);
            assert(out@.drop_last() =~= before);
        }
        k += 1;
    }
    assert(orig.take(orig.len() as int) =~= orig);
    assert(errs@.take(orig.len() as int) =~= errs@);
    out
}

/// The SQL chunks of a parsed file: the tree pass, every chunk cut again at
/// statement keywords, the text the tree pass leaves cut likewise, `ALTER
/// TABLE` chunks merged per table, and chunks of unrecognised statement
/// types dropped.
pub fn extract_chunks_with_db(nodes: &Vec<SyntaxNode>, source: &[u8], file_path: &str, deps: &Vec<String>, database_name: Option<&str>) -> (r: Vec<CodeChunk>)
    ensures
        sql_pipeline_ok(r@, nodes_view(nodes@), source@, file_path@, views(deps@), opt_str(database_name)),
{
    let (raw, errs, spans) = tree_statement_chunks(nodes, source, file_path, deps, database_name);
    let ghost rawv = raw@;
    let ghost errv = errs@;
    let mut all = resplit_sql_chunks(raw, &errs, file_path, deps, database_name);
    let ghost p2 = all@;
    let remainder = build_remainder_code(source, spans.as_slice());
    let mut tail: Vec<CodeChunk> = if !trim_str(remainder.as_str()).as_str().is_empty() {
        regex_split_sql_text(remainder.as_str(), file_path, deps, database_name)
    } else {
        Vec::new()
    };
    let ghost p3 = tail@;
    assert(statements_ok(p3, remainder_statements(source@, sql_spans(nodes_view(nodes@))), file_path@, views(deps@), opt_str(database_name)));
    all.append(&mut tail);
    assert(all@ =~= p2 + p3);
    let merged = merge_alter_table_chunks(all, file_path, deps, database_name);
    let ghost m = merged@;
    assert(alters_merged(m, p2 + p3, file_path@, views(deps@), opt_str(database_name)));
    let r = filter_junk_chunks(merged);
    assert(r@ == m.filter(|c: CodeChunk| keeps_chunk(c)));
    r
}

// ---------------------------------------------------------------------------
// Dependencies
// ---------------------------------------------------------------------------

/// The last named node at depth `d` among the nodes after `p` up to `q`.
pub open spec fn prev_named_from(t: Seq<NodeView>, d: usize, p: int, q: int) -> Option<int>
    decreases q - p,
{
    if q <= p || q < 0 {
        None
    } else if t[q].depth == d && t[q].named {
        Some(q)
    } else {
        prev_named_from(t, d, p, q - 1)
    }
}

/// The named sibling just before node `j`.
pub open spec fn prev_named_sibling(t: Seq<NodeView>, j: int) -> Option<int> {
    match parent_of(t, j) {
        Some(p) => prev_named_from(t, t[j].depth, p, j - 1),
        None => None,
    }
}

/// An object reference's name: its identifiers joined by `.`, else its own
/// text (none when empty); brackets removed.
pub open spec fn object_name(t: Seq<NodeView>, src: Seq<u8>, o: int) -> Option<Seq<char>> {
    let ids = kind_children(t, o, "identifier"@);
    if ids.len() == 0 {
        let raw = unbracketed(trim_spec(node_text(src, t[o])));
        if raw.len() == 0 {
            None
        } else {
            Some(raw)
        }
    } else {
        Some(join(Seq::new(ids.len(), |k: int| unbracketed(node_text(src, t[ids[k]]))), "."@))
    }
}

/// The object a node references after a `REFERENCES` keyword.
pub open spec fn referenced_object(t: Seq<NodeView>, src: Seq<u8>, j: int) -> Option<Seq<char>> {
    if t[j].kind == "object_reference"@ && match prev_named_sibling(t, j) {
        Some(q) => t[q].kind == "keyword_references"@,
        None => false,
    } {
        object_name(t, src, j)
    } else {
        None
    }
}

/// The tables the first `n` nodes reference, each once, in document order.
pub open spec fn sql_deps(t: Seq<NodeView>, src: Seq<u8>, n: int) -> Seq<Seq<char>>
    decreases n,
{
    if n <= 0 {
        Seq::empty()
    } else {
        let prev = sql_deps(t, src, n - 1);
        match referenced_object(t, src, n - 1) {
            Some(d) => if prev.contains(d) {
                prev
            } else {
                prev.push(d)
            },
            None => prev,
        }
    }
}

fn prev_named_sibling_of(t: &Vec<SyntaxNode>, last: &Vec<Option<usize>>, j: usize) -> (r: Option<usize>)
    requires
        j < t@.len(),
        tracks_last(nodes_view(t@), last@, j as int),
    ensures
        match r {
            Some(q) => prev_named_sibling(nodes_view(t@), j as int) == Some(q as int) && q < t@.len(),
            None => prev_named_sibling(nodes_view(t@), j as int) is None,
        },
{
    let ghost tv = nodes_view(t@);
    assert(tv[j as int] == t@[j as int]@);
    match parent_index(t, last, j) {
        Some(p) => {
            let d = t[j].depth;
            let mut q = j;
            while q > p + 1
                invariant
                    p < q <= j,
                    j < t@.len(),
                    parent_of(tv, j as int) == Some(p as int),
                    tv == nodes_view(t@),
                    d == tv[j as int].depth,
                    prev_named_from(tv, d, p as int, q - 1) == prev_named_from(tv, d, p as int, j - 1),
                decreases q,
            {
                assert(tv[q - 1] == t@[q - 1]@);
                if t[q - 1].depth == d && t[q - 1].named {
                    return Some(q - 1);
                }
                q -= 1;
            }
            None
        },
        None => None,
    }
}

fn object_name_of(t: &Vec<SyntaxNode>, src: &[u8], o: usize) -> (r: Option<String>)
    requires
        o < t@.len(),
    ensures
        opt_view(r) == object_name(nodes_view(t@), src@, o as int),
{
    let ghost tv = nodes_view(t@);
    let ids = kind_children_of(t, o, "identifier");
    if ids.len() == 0 {
        assert(tv[o as int] == t@[o as int]@);
        let raw = strip_brackets(trim_str(text_of(src, &t[o]).as_str()).as_str());
        if raw.as_str().is_empty() {
            None
        } else {
            Some(raw)
        }
    } else {
        let ghost want = Seq::new(ids@.len(), |k: int| unbracketed(node_text(src@, tv[ids@[k] as int])));
        let mut parts: Vec<String> = Vec::new();
        let mut k: usize = 0;
        while k < ids.len()
            invariant
                k <= ids@.len(),
                tv == nodes_view(t@),
                forall|q: int| 0 <= q < ids@.len() ==> #[trigger] ids@[q] < t@.len(),
                want == Seq::new(ids@.len(), |k: int| unbracketed(node_text(src@, tv[ids@[k] as int]))),
                views(parts@) == want.take(k as int),
            decreases ids.len() - k,
        {
            let j = ids[k];
            assert(tv[j as int] == t@[j as int]@);
            let ghost before = views(parts@);
            push_string(&mut parts, strip_brackets(text_of(src, &t[j]).as_str()));
            assert(views(parts@) =~= want.take(k + 1));
            k += 1;
        }
        assert(want.take(ids@.len() as int) =~= want);
        let ghost kc = kind_children(tv, o as int, "identifier"@);
        assert(want =~= Seq::new(kc.len(), |k: int| unbracketed(node_text(src@, tv[kc[k]]))));
        Some(join_strings(&parts, "."))
    }
}

/// The tables a parsed SQL file references after `REFERENCES`, each once,
/// in document order.
pub fn extract_dependencies(nodes: &Vec<SyntaxNode>, source: &[u8]) -> (r: Vec<String>)
    ensures
        views(r@) == sql_deps(nodes_view(nodes@), source@, nodes@.len() as int),
{
    let ghost tv = nodes_view(nodes@);
    let mut deps: Vec<String> = Vec::new();
    let mut last: Vec<Option<usize>> = Vec::new();
    let mut i: usize = 0;
    while i < nodes.len()
        invariant
            i <= nodes@.len(),
            tv == nodes_view(nodes@),
            tracks_last(tv, last@, i as int),
            views(deps@) == sql_deps(tv, source@, i as int),
        decreases nodes.len() - i,
    {
        assert(tv[i as int] == nodes@[i as int]@);
        if str_eq(nodes[i].kind.as_str(), "object_reference") {
            let after_refs = match prev_named_sibling_of(nodes, &last, i) {
                Some(q) => {
                    assert(tv[q as int] == nodes@[q as int]@);
                    str_eq(nodes[q].kind.as_str(), "keyword_references")
                },
                None => false,
            };
            if after_refs {
                match object_name_of(nodes, source, i) {
                    Some(d) => {
                        if !contains_string(&deps, d.as_str()) {
                            push_string(&mut deps, d);
                        }
                    },
                    None => {},
                }
            }
        }
        track_node(nodes, &mut last, i);
        i += 1;
    }
    deps
}

/// `r` holds the SQL chunks of SQL text `text` (see `chunk_sql_source`).
pub open spec fn sql_source_chunks_ok(r: Seq<CodeChunk>, text: Seq<char>, file_path: Seq<char>) -> bool {
    let clean = crate::chunk_helpers::strip_sql_comments_spec(crate::patterns::sql_without_boilerplate(text).0);
    let db = crate::patterns::sql_without_boilerplate(text).1;
    let bytes = vstd::utf8::encode_utf8(clean);
    match sql_syntax_spec(bytes) {
        Some(t) => sql_pipeline_ok(r, t, bytes, file_path, sql_deps(t, bytes, t.len() as int), db),
        None => r.len() == 0,
    }
}

/// The SQL chunks of a SQL source text: `USE` and batch-separator lines
/// removed (the database named by `USE` kept for the chunks), comments
/// removed, then the parse tree chunked (see `extract_chunks_with_db`);
/// none when the text does not parse.
pub fn chunk_sql_source(text: &str, file_path: &str) -> (r: Vec<CodeChunk>)
    ensures
        sql_source_chunks_ok(r@, text@, file_path@),
{
    let (clean, db) = crate::patterns::strip_sql_boilerplate(text);
    let processed = crate::chunk_helpers::strip_sql_comments(clean.as_str());
    let bytes = processed.as_str().as_bytes();
    match parse_sql(bytes) {
        Some(nodes) => {
            let deps = extract_dependencies(&nodes, bytes);
            let dbs: Option<&str> = match &db {
                Some(d) => Some(d.as_str()),
                None => None,
            };
            assert(opt_str(dbs) == opt_view(db));
            extract_chunks_with_db(&nodes, bytes, file_path, &deps, dbs)
        },
        None => Vec::new(),
    }
}

} // verus!
