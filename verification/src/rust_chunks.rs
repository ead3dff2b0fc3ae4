//! The Rust chunker: every function, struct, enum and trait becomes a
//! chunk; the enclosing `impl` type (or trait) is a function's class, the
//! nearest module its namespace; what the chunks leave of the file becomes
//! the remainder chunk.
use vstd::prelude::*;
use crate::syntax::{
    SyntaxNode, NodeView, nodes_view, node_text, field_child, field_text, named_children, last_at_depth,
    text_of, field_child_of, field_text_of, named_children_of, tracks_last, track_node,
    lemma_last_at_depth_bounds,
};
use crate::java_chunks::{or_empty, is_remainder_chunk, has_remainder, contains_string};
use crate::code_chunk::CodeChunk;
use crate::chunk_types::{CodeChunkKind, Parameter, opt_view, params_view};
use crate::chunk_make::{make_rust_chunk, is_extracted_chunk, id_name};
use crate::imports::{normalize_rust_dependency, rust_dependency, normalize_type_text, type_text};
use crate::spans::Span;
use crate::sql::make_remainder_chunk;
use crate::text::{trim_spec, trim_str, str_eq};
use crate::seqtext::{views, push_string};

verus! {

/// The nodes, in document order, of the tree tree-sitter's Rust grammar
/// parses the source into; `None` when parsing gives no tree.
pub uninterp spec fn rust_syntax_spec(source: Seq<u8>) -> Option<Seq<NodeView>>;

/// `Parser::parse` with the Rust grammar, the tree walked in document order
/// with a `TreeCursor` (`kind`, `is_named`, `start_byte`, `end_byte`,
/// `field_name`, `depth` of each node). The contract names the result: a
/// function of the source alone.
#[verifier::external_body]
pub(crate) fn parse_rust(source: &[u8]) -> (r: Option<Vec<SyntaxNode>>)
    ensures
        match r {
            Some(v) => rust_syntax_spec(source@) == Some(nodes_view(v@)),
            None => rust_syntax_spec(source@) is None,
        },
{
    let mut parser = tree_sitter::Parser::new();
    parser.set_language(&tree_sitter_rust::LANGUAGE.into()).ok()?;
    let tree = parser.parse(source, None)?;
    let (mut c, mut out) = (tree.walk(), Vec::new());
    loop {
        let n = c.node();
        out.push(SyntaxNode { kind: n.kind().into(), named: n.is_named(), start: n.start_byte(), end: n.end_byte(), field: c.field_name().map(Into::into), depth: c.depth() as usize });
        if !c.goto_first_child() {
            while !c.goto_next_sibling() {
                if !c.goto_parent() {
                    return Some(out);
                }
            }
        }
    }
}

pub open spec fn is_rust_function(k: Seq<char>) -> bool {
    k == "function_item"@
}

pub open spec fn is_rust_type(k: Seq<char>) -> bool {
    k == "struct_item"@ || k == "enum_item"@ || k == "trait_item"@
}

/// The text of the first of the given children whose kind is `a` or `b`.
pub open spec fn first_of_kinds(t: Seq<NodeView>, src: Seq<u8>, kids: Seq<int>, a: Seq<char>, b: Seq<char>) -> Option<Seq<char>>
    decreases kids.len(),
{
    if kids.len() == 0 {
        None
    } else if t[kids[0]].kind == a || t[kids[0]].kind == b {
        Some(node_text(src, t[kids[0]]))
    } else {
        first_of_kinds(t, src, kids.skip(1), a, b)
    }
}

/// The name an ancestor gives a function as its class: an `impl` block's
/// type (its `type` child, else its first type identifier or identifier),
/// or a trait's name.
pub open spec fn owner_name(t: Seq<NodeView>, src: Seq<u8>, a: int) -> Option<Seq<char>> {
    if t[a].kind == "impl_item"@ {
        match field_text(t, src, a, "type"@) {
            Some(x) => Some(x),
            None => first_of_kinds(t, src, named_children(t, a), "type_identifier"@, "identifier"@),
        }
    } else if t[a].kind == "trait_item"@ {
        field_text(t, src, a, "name"@)
    } else {
        None
    }
}

/// The name a module ancestor gives: its `name` child, else its first
/// identifier or type identifier.
pub open spec fn module_name(t: Seq<NodeView>, src: Seq<u8>, a: int) -> Option<Seq<char>> {
    if t[a].kind == "mod_item"@ || t[a].kind == "mod_declaration"@ {
        match field_text(t, src, a, "name"@) {
            Some(x) => Some(x),
            None => first_of_kinds(t, src, named_children(t, a), "identifier"@, "type_identifier"@),
        }
    } else {
        None
    }
}

/// The nearest ancestor of node `i` (looking from depth `k` up) that gives
/// an owner name.
pub open spec fn enclosing_owner(t: Seq<NodeView>, src: Seq<u8>, i: int, k: int) -> Option<Seq<char>>
    decreases k + 1,
{
    if k < 0 {
        None
    } else {
        match last_at_depth(t, k, i) {
            Some(a) => match owner_name(t, src, a) {
                Some(x) => Some(x),
                None => enclosing_owner(t, src, i, k - 1),
            },
            None => enclosing_owner(t, src, i, k - 1),
        }
    }
}

/// The nearest module around node `i` (looking from depth `k` up).
pub open spec fn enclosing_module(t: Seq<NodeView>, src: Seq<u8>, i: int, k: int) -> Option<Seq<char>>
    decreases k + 1,
{
    if k < 0 {
        None
    } else {
        match last_at_depth(t, k, i) {
            Some(a) => match module_name(t, src, a) {
                Some(x) => Some(x),
                None => enclosing_module(t, src, i, k - 1),
            },
            None => enclosing_module(t, src, i, k - 1),
        }
    }
}

/// The first present text among two fields of node `i`.
pub open spec fn either_field(t: Seq<NodeView>, src: Seq<u8>, i: int, f: Seq<char>, g: Seq<char>) -> Option<Seq<char>> {
    match field_text(t, src, i, f) {
        Some(x) => Some(x),
        None => field_text(t, src, i, g),
    }
}

/// The parameter a parameter-list child gives: `self` with the receiver's
/// text, or a pattern and its type (or just the type when there is no
/// pattern).
pub open spec fn rust_param(t: Seq<NodeView>, src: Seq<u8>, j: int) -> Option<(Seq<char>, Seq<char>)> {
    if t[j].kind == "self_parameter"@ {
        Some(("self"@, trim_spec(node_text(src, t[j]))))
    } else if t[j].kind == "parameter"@ {
        let name = trim_spec(or_empty(either_field(t, src, j, "pattern"@, "name"@)));
        let ty = match either_field(t, src, j, "type"@, "type_annotation"@) {
            Some(x) => type_text(x),
            None => Seq::empty(),
        };
        if name.len() > 0 {
            Some((name, ty))
        } else if ty.len() > 0 {
            Some((ty, Seq::empty()))
        } else {
            None
        }
    } else {
        None
    }
}

pub open spec fn rust_params(t: Seq<NodeView>, src: Seq<u8>, kids: Seq<int>) -> Seq<(Seq<char>, Seq<char>)>
    decreases kids.len(),
{
    if kids.len() == 0 {
        Seq::empty()
    } else {
        let prev = rust_params(t, src, kids.drop_last());
        match rust_param(t, src, kids.last()) {
            Some(p) => prev.push(p),
            None => prev,
        }
    }
}

pub open spec fn rust_params_of(t: Seq<NodeView>, src: Seq<u8>, i: int) -> Seq<(Seq<char>, Seq<char>)> {
    match field_child(t, i, "parameters"@) {
        Some(p) => rust_params(t, src, named_children(t, p)),
        None => Seq::empty(),
    }
}

/// The chunk of node `i`: for a function, its name, owner, parameters and
/// return type; for a type, its name; the enclosing module; the node's
/// text as code and its kind as chunk type.
pub open spec fn is_rust_node_chunk(
    c: CodeChunk,
    t: Seq<NodeView>,
    src: Seq<u8>,
    i: int,
    file_path: Seq<char>,
    deps: Seq<Seq<char>>,
) -> bool {
    let is_fn = is_rust_function(t[i].kind);
    let fname = if is_fn {
        field_text(t, src, i, "name"@)
    } else {
        None
    };
    let cname = if is_fn {
        enclosing_owner(t, src, i, t[i].depth - 1)
    } else {
        field_text(t, src, i, "name"@)
    };
    &&& is_extracted_chunk(c, file_path, id_name(seq![fname, cname]), node_text(src, t[i]), t[i].kind, deps)
    &&& c.kind matches CodeChunkKind::Rust(f) && {
        &&& opt_view(f.function_name) == fname
        &&& opt_view(f.class_name) == cname
        &&& params_view(f.parameters@) == if is_fn {
            rust_params_of(t, src, i)
        } else {
            Seq::empty()
        }
        &&& opt_view(f.return_type) == if is_fn {
            either_field(t, src, i, "return_type"@, "type"@)
        } else {
            None
        }
        &&& opt_view(f.namespace) == enclosing_module(t, src, i, t[i].depth - 1)
    }
}

/// The nodes among the first `n` that become chunks, in document order.
pub open spec fn rust_chunk_nodes(t: Seq<NodeView>, n: int) -> Seq<int>
    decreases n,
{
    if n <= 0 {
        Seq::empty()
    } else if is_rust_function(t[n - 1].kind) || is_rust_type(t[n - 1].kind) {
        rust_chunk_nodes(t, n - 1).push(n - 1)
    } else {
        rust_chunk_nodes(t, n - 1)
    }
}

/// The byte ranges of the chunked nodes among the first `n`.
pub open spec fn rust_spans(t: Seq<NodeView>, n: int) -> Seq<Span>
    decreases n,
{
    if n <= 0 {
        Seq::empty()
    } else if is_rust_function(t[n - 1].kind) || is_rust_type(t[n - 1].kind) {
        rust_spans(t, n - 1).push((t[n - 1].start, t[n - 1].end))
    } else {
        rust_spans(t, n - 1)
    }
}

/// `r` holds the chunks of a parsed Rust file: one per function, struct,
/// enum and trait in document order, then the remainder chunk when they
/// leave any text.
pub open spec fn rust_chunks_ok(r: Seq<CodeChunk>, t: Seq<NodeView>, src: Seq<u8>, file_path: Seq<char>, deps: Seq<Seq<char>>) -> bool {
    let idx = rust_chunk_nodes(t, t.len() as int);
    let spans = rust_spans(t, t.len() as int);
    &&& r.len() == idx.len() + if has_remainder(src, spans) { 1int } else { 0int }
    &&& forall|k: int| 0 <= k < idx.len() ==> is_rust_node_chunk(#[trigger] r[k], t, src, idx[k], file_path, deps)
    &&& has_remainder(src, spans) ==> is_remainder_chunk(r[idx.len() as int], src, spans, file_path, deps)
}

pub(crate) fn first_of_kinds_of(t: &Vec<SyntaxNode>, src: &[u8], a: usize, k1: &str, k2: &str) -> (r: Option<String>)
    requires
        a < t@.len(),
    ensures
        opt_view(r) == first_of_kinds(nodes_view(t@), src@, named_children(nodes_view(t@), a as int), k1@, k2@),
{
    let ghost tv = nodes_view(t@);
    let kids = named_children_of(t, a);
    let ghost ks = named_children(tv, a as int);
    let mut k: usize = 0;
    assert(ks.skip(0) =~= ks);
    while k < kids.len()
        invariant
            k <= kids.len(),
            tv == nodes_view(t@),
            ks == named_children(tv, a as int),
            kids@.len() == ks.len(),
            forall|q: int| 0 <= q < kids@.len() ==> kids@[q] as int == ks[q] && #[trigger] kids@[q] < t@.len(),
            first_of_kinds(tv, src@, ks.skip(k as int), k1@, k2@) == first_of_kinds(tv, src@, ks, k1@, k2@),
        decreases kids.len() - k,
    {
        let j = kids[k];
        assert(ks.skip(k as int)[0] == j as int);
        assert(ks.skip(k as int).skip(1) =~= ks.skip(k + 1));
        assert(tv[j as int] == t@[j as int]@);
        if str_eq(t[j].kind.as_str(), k1) || str_eq(t[j].kind.as_str(), k2) {
            let txt = text_of(src, &t[j]);
            assert(first_of_kinds(tv, src@, ks.skip(k as int), k1@, k2@) == Some(node_text(src@, tv[j as int])));
            return Some(txt);
        }
        k += 1;
    }
    None
}

fn owner_name_of(t: &Vec<SyntaxNode>, src: &[u8], a: usize) -> (r: Option<String>)
    requires
        a < t@.len(),
    ensures
        opt_view(r) == owner_name(nodes_view(t@), src@, a as int),
{
    assert(nodes_view(t@)[a as int] == t@[a as int]@);
    let kind = t[a].kind.as_str();
    if str_eq(kind, "impl_item") {
        match field_text_of(t, src, a, "type") {
            Some(x) => Some(x),
            None => first_of_kinds_of(t, src, a, "type_identifier", "identifier"),
        }
    } else if str_eq(kind, "trait_item") {
        field_text_of(t, src, a, "name")
    } else {
        None
    }
}

fn module_name_of(t: &Vec<SyntaxNode>, src: &[u8], a: usize) -> (r: Option<String>)
    requires
        a < t@.len(),
    ensures
        opt_view(r) == module_name(nodes_view(t@), src@, a as int),
{
    assert(nodes_view(t@)[a as int] == t@[a as int]@);
    let kind = t[a].kind.as_str();
    if str_eq(kind, "mod_item") || str_eq(kind, "mod_declaration") {
        match field_text_of(t, src, a, "name") {
            Some(x) => Some(x),
            None => first_of_kinds_of(t, src, a, "identifier", "type_identifier"),
        }
    } else {
        None
    }
}

/// The ancestor of node `i` at depth `level`, from the tracked last nodes.
pub(crate) fn ancestor_at(t: &Vec<SyntaxNode>, last: &Vec<Option<usize>>, i: usize, level: usize) -> (r: Option<usize>)
    requires
        i < t@.len(),
        tracks_last(nodes_view(t@), last@, i as int),
    ensures
        match r {
            Some(a) => last_at_depth(nodes_view(t@), level as int, i as int) == Some(a as int) && a < i,
            None => last_at_depth(nodes_view(t@), level as int, i as int) is None,
        },
{
    proof {
        lemma_last_at_depth_bounds(nodes_view(t@), level as int, i as int);
    }
    if level < last.len() {
        assert(match last@[level as int] {
            Some(a) => last_at_depth(nodes_view(t@), level as int, i as int) == Some(a as int),
            None => last_at_depth(nodes_view(t@), level as int, i as int) is None,
        });
        last[level]
    } else {
        assert(last_at_depth(nodes_view(t@), level as int, i as int) is None);
        None
    }
}

fn enclosing_owner_of(t: &Vec<SyntaxNode>, src: &[u8], last: &Vec<Option<usize>>, i: usize) -> (r: Option<String>)
    requires
        i < t@.len(),
        tracks_last(nodes_view(t@), last@, i as int),
    ensures
        opt_view(r) == enclosing_owner(nodes_view(t@), src@, i as int, t@[i as int].depth - 1),
{
    let ghost tv = nodes_view(t@);
    assert(tv[i as int] == t@[i as int]@);
    let mut k = t[i].depth;
    while k > 0
        invariant
            k <= t@[i as int].depth,
            tv == nodes_view(t@),
            i < t@.len(),
            tracks_last(tv, last@, i as int),
            enclosing_owner(tv, src@, i as int, k - 1) == enclosing_owner(tv, src@, i as int, t@[i as int].depth - 1),
        decreases k,
    {
        match ancestor_at(t, last, i, k - 1) {
            Some(a) => {
                let name = owner_name_of(t, src, a);
                if name.is_some() {
                    return name;
                }
            },
            None => {},
        }
        k -= 1;
    }
    None
}

fn enclosing_module_of(t: &Vec<SyntaxNode>, src: &[u8], last: &Vec<Option<usize>>, i: usize) -> (r: Option<String>)
    requires
        i < t@.len(),
        tracks_last(nodes_view(t@), last@, i as int),
    ensures
        opt_view(r) == enclosing_module(nodes_view(t@), src@, i as int, t@[i as int].depth - 1),
{
    let ghost tv = nodes_view(t@);
    assert(tv[i as int] == t@[i as int]@);
    let mut k = t[i].depth;
    while k > 0
        invariant
            k <= t@[i as int].depth,
            tv == nodes_view(t@),
            i < t@.len(),
            tracks_last(tv, last@, i as int),
            enclosing_module(tv, src@, i as int, k - 1) == enclosing_module(tv, src@, i as int, t@[i as int].depth - 1),
        decreases k,
    {
        match ancestor_at(t, last, i, k - 1) {
            Some(a) => {
                let name = module_name_of(t, src, a);
                if name.is_some() {
                    return name;
                }
            },
            None => {},
        }
        k -= 1;
    }
    None
}

fn either_field_of(t: &Vec<SyntaxNode>, src: &[u8], i: usize, f: &str, g: &str) -> (r: Option<String>)
    requires
        i < t@.len(),
    ensures
        opt_view(r) == either_field(nodes_view(t@), src@, i as int, f@, g@),
{
    match field_text_of(t, src, i, f) {
        Some(x) => Some(x),
        None => field_text_of(t, src, i, g),
    }
}

fn rust_parameters(t: &Vec<SyntaxNode>, src: &[u8], i: usize) -> (r: Vec<Parameter>)
    requires
        i < t@.len(),
    ensures
        params_view(r@) == rust_params_of(nodes_view(t@), src@, i as int),
{
    let ghost tv = nodes_view(t@);
    let mut params: Vec<Parameter> = Vec::new();
    match field_child_of(t, i, "parameters") {
        Some(p) => {
            let kids = named_children_of(t, p);
            let ghost ks = named_children(tv, p as int);
            let mut k: usize = 0;
            while k < kids.len()
                invariant
                    k <= kids.len(),
                    tv == nodes_view(t@),
                    kids@.len() == ks.len(),
                    forall|q: int| 0 <= q < kids@.len() ==> kids@[q] as int == ks[q] && #[trigger] kids@[q] < t@.len(),
                    params_view(params@) == rust_params(tv, src@, ks.take(k as int)),
                decreases kids.len() - k,
            {
                let j = kids[k];
                assert(ks.take(k + 1).drop_last() =~= ks.take(k as int));
                assert(ks.take(k + 1).last() == j as int);
                assert(tv[j as int] == t@[j as int]@);
                let kind = t[j].kind.as_str();
                let ghost before = params_view(params@);
                if str_eq(kind, "self_parameter") {
                    let ty = trim_str(text_of(src, &t[j]).as_str());
                    params.push(Parameter { name: "self".to_owned(), param_type: ty });
                    assert(params_view(params@) =~= before.push(("self"@, ty@)));
                } else if str_eq(kind, "parameter") {
                    let name = trim_str(
                        match either_field_of(t, src, j, "pattern", "name") {
                            Some(x) => x,
                            None => String::new(),
                        }.as_str(),
                    );
                    let ty = match either_field_of(t, src, j, "type", "type_annotation") {
                        Some(x) => normalize_type_text(x.as_str()),
                        None => String::new(),
                    };
                    if !name.as_str().is_empty() {
                        params.push(Parameter { name, param_type: ty });
                        assert(params_view(params@) =~= before.push((name@, ty@)));
                    } else if !ty.as_str().is_empty() {
                        params.push(Parameter { name: ty, param_type: String::new() });
                        assert(params_view(params@) =~= before.push((ty@, Seq::<char>::empty())));
                    }
                }
                k += 1;
            }
            assert(ks.take(kids.len() as int) =~= ks);
        },
        None => {},
    }
    params
}

fn is_fn_kind(k: &str) -> (r: bool)
    ensures
        r == is_rust_function(k@),
{
    str_eq(k, "function_item")
}

fn is_type_kind(k: &str) -> (r: bool)
    ensures
        r == is_rust_type(k@),
{
    str_eq(k, "struct_item") || str_eq(k, "enum_item") || str_eq(k, "trait_item")
}

/// The chunks of a parsed Rust file: one per function, struct, enum and
/// trait in document order, then the remainder chunk when they leave any
/// text.
pub fn extract_chunks(nodes: &Vec<SyntaxNode>, source: &[u8], file_path: &str, deps: &Vec<String>) -> (r: Vec<CodeChunk>)
    ensures
        rust_chunks_ok(r@, nodes_view(nodes@), source@, file_path@, views(deps@)),
{
    let ghost tv = nodes_view(nodes@);
    let mut chunks: Vec<CodeChunk> = Vec::new();
    let mut spans: Vec<Span> = Vec::new();
    let mut last: Vec<Option<usize>> = Vec::new();
    let mut i: usize = 0;
    while i < nodes.len()
        invariant
            i <= nodes@.len(),
            tv == nodes_view(nodes@),
            tracks_last(tv, last@, i as int),
            spans@ == rust_spans(tv, i as int),
            chunks@.len() == rust_chunk_nodes(tv, i as int).len(),
            forall|k: int| 0 <= k < chunks@.len() ==> is_rust_node_chunk(#[trigger] chunks@[k], tv, source@, rust_chunk_nodes(tv, i as int)[k], file_path@, views(deps@)),
        decreases nodes.len() - i,
    {
        let node = &nodes[i];
        assert(tv[i as int] == nodes@[i as int]@);
        let kind = node.kind.as_str();
        let ghost prev = chunks@;
        let ghost prev_idx = rust_chunk_nodes(tv, i as int);
        let is_fn = is_fn_kind(kind);
        if is_fn || is_type_kind(kind) {
            let c = if is_fn {
                let function_name = field_text_of(nodes, source, i, "name");
                let parameters = rust_parameters(nodes, source, i);
                let return_type = either_field_of(nodes, source, i, "return_type", "type");
                let class_name = enclosing_owner_of(nodes, source, &last, i);
                let namespace = enclosing_module_of(nodes, source, &last, i);
                let code = text_of(source, node);
                make_rust_chunk(file_path, function_name, class_name, parameters, return_type, namespace, code, kind, deps)
            } else {
                let decl_name = field_text_of(nodes, source, i, "name");
                let namespace = enclosing_module_of(nodes, source, &last, i);
                let code = text_of(source, node);
                let c = make_rust_chunk(file_path, None, decl_name, Vec::new(), None, namespace, code, kind, deps);
                assert(params_view(Seq::<Parameter>::empty()) =~= Seq::<(Seq<char>, Seq<char>)>::empty());
                c
            };
            assert(is_rust_node_chunk(c, tv, source@, i as int, file_path@, views(deps@)));
            chunks.push(c);
            spans.push((node.start, node.end));
            assert(rust_chunk_nodes(tv, i + 1) == prev_idx.push(i as int));
            assert forall|k: int| 0 <= k < chunks@.len() implies is_rust_node_chunk(#[trigger] chunks@[k], tv, source@, rust_chunk_nodes(tv, i + 1)[k], file_path@, views(deps@)) by {
                if k < prev.len() {
                    assert(chunks@[k] == prev[k]);
                }
            }
        } else {
            assert(rust_chunk_nodes(tv, i + 1) == prev_idx);
        }
        track_node(nodes, &mut last, i);
        i += 1;
    }
    match make_remainder_chunk(source, spans.as_slice(), file_path, deps) {
        Some(rc) => {
            chunks.push(rc);
        },
        None => {},
    }
    chunks
}

// ---------------------------------------------------------------------------
// Dependencies
// ---------------------------------------------------------------------------

/// The `use` and `extern crate` declarations among the first `n` nodes,
/// normalized, non-empty and each once, in document order.
pub open spec fn rust_deps(t: Seq<NodeView>, src: Seq<u8>, n: int) -> Seq<Seq<char>>
    decreases n,
{
    if n <= 0 {
        Seq::empty()
    } else {
        let prev = rust_deps(t, src, n - 1);
        if t[n - 1].kind == "use_declaration"@ || t[n - 1].kind == "extern_crate_declaration"@ {
            let d = rust_dependency(node_text(src, t[n - 1]));
            if d.len() > 0 && !prev.contains(d) {
                prev.push(d)
            } else {
                prev
            }
        } else {
            prev
        }
    }
}

/// The dependencies of a parsed Rust file: its `use` and `extern crate`
/// declarations, normalized, each once, in document order.
pub fn extract_dependencies(nodes: &Vec<SyntaxNode>, source: &[u8]) -> (r: Vec<String>)
    ensures
        views(r@) == rust_deps(nodes_view(nodes@), source@, nodes@.len() as int),
{
    let ghost tv = nodes_view(nodes@);
    let mut deps: Vec<String> = Vec::new();
    let mut i: usize = 0;
    while i < nodes.len()
        invariant
            i <= nodes@.len(),
            tv == nodes_view(nodes@),
            views(deps@) == rust_deps(tv, source@, i as int),
        decreases nodes.len() - i,
    {
        assert(tv[i as int] == nodes@[i as int]@);
        let kind = nodes[i].kind.as_str();
        if str_eq(kind, "use_declaration") || str_eq(kind, "extern_crate_declaration") {
            let d = normalize_rust_dependency(text_of(source, &nodes[i]).as_str());
            if !d.as_str().is_empty() && !contains_string(&deps, d.as_str()) {
                push_string(&mut deps, d);
            }
        }
        i += 1;
    }
    deps
}

/// The chunks of a Rust source file, with its `use` declarations as
/// dependencies; none when the source does not parse.
pub fn chunk_rust_source(source: &[u8], file_path: &str) -> (r: Vec<CodeChunk>)
    ensures
        match rust_syntax_spec(source@) {
            Some(t) => rust_chunks_ok(r@, t, source@, file_path@, rust_deps(t, source@, t.len() as int)),
            None => r@.len() == 0,
        },
{
    match parse_rust(source) {
        Some(nodes) => {
            let deps = extract_dependencies(&nodes, source);
            extract_chunks(&nodes, source, file_path, &deps)
        },
        None => Vec::new(),
    }
}

/// The dependencies of a Rust source file; none when it does not parse.
pub fn rust_source_dependencies(source: &[u8]) -> (r: Vec<String>)
    ensures
        match rust_syntax_spec(source@) {
            Some(t) => views(r@) == rust_deps(t, source@, t.len() as int),
            None => r@.len() == 0,
        },
{
    match parse_rust(source) {
        Some(nodes) => extract_dependencies(&nodes, source),
        None => Vec::new(),
    }
}

} // verus!
