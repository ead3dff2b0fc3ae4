//! The JavaScript chunker: function declarations, methods and variables
//! bound to a function expression become chunks with their name, class,
//! parameters and async/generator flags; a variable's chunk takes the
//! whole declaration out of the remainder when it declares nothing else.
use vstd::prelude::*;
use crate::syntax::{
    SyntaxNode, NodeView, nodes_view, node_text, field_child, field_text, named_children, last_at_depth,
    text_of, field_child_of, field_text_of, named_children_of, tracks_last, track_node,
    lemma_last_at_depth_bounds,
};
use crate::rust_chunks::ancestor_at;
use crate::java_chunks::{is_remainder_chunk, has_remainder, contains_string};
use crate::code_chunk::CodeChunk;
use crate::chunk_types::{CodeChunkKind, JavaScriptFields, Parameter, opt_view, params_view};
use crate::chunk_make::{make_js_chunk, is_extracted_chunk, id_name};
use crate::chunk_helpers::{unquoted_source, strip_js_import_source};
use crate::spans::Span;
use crate::sql::make_remainder_chunk;
use crate::text::{trim_spec, trim_str, str_eq};
use crate::seqtext::{views, push_string};

verus! {

/// The nodes, in document order, of the tree tree-sitter's JavaScript
/// grammar parses the source into; `None` when parsing gives no tree.
pub uninterp spec fn js_syntax_spec(source: Seq<u8>) -> Option<Seq<NodeView>>;

/// `Parser::parse` with the JavaScript grammar, the tree walked in document
/// order with a `TreeCursor` (`kind`, `is_named`, `start_byte`, `end_byte`,
/// `field_name`, `depth` of each node). The contract names the result: a
/// function of the source alone.
#[verifier::external_body]
pub(crate) fn parse_js(source: &[u8]) -> (r: Option<Vec<SyntaxNode>>)
    ensures
        match r {
            Some(v) => js_syntax_spec(source@) == Some(nodes_view(v@)),
            None => js_syntax_spec(source@) is None,
        },
{
    let mut parser = tree_sitter::Parser::new();
    parser.set_language(&tree_sitter_javascript::LANGUAGE.into()).ok()?;
    let tree = parser.parse(source, None)?;
    let (mut c, mut out) = (tree.walk(), Vec::new());
    loop {
        let n = c.node();
        out.push(SyntaxNode { kind: n.kind().into(), named: n.is_named(), start: n.start_byte(), end: n.end_byte(), field: c.field_name().map(Into::into), depth: c.depth() as usize });
        if !c.goto_first_child() {
            while !c.goto_next_sibling() {
                if !c.goto_parent() {
                    return Some(out);
                }
            }
        }
    }
}

pub open spec fn is_js_function_decl(k: Seq<char>) -> bool {
    k == "function_declaration"@ || k == "generator_function_declaration"@
}

pub open spec fn is_js_function_expr(k: Seq<char>) -> bool {
    k == "arrow_function"@ || k == "function_expression"@ || k == "generator_function"@
}

/// Whether a child of node `i` (from node `j` on) has kind `k`.
pub open spec fn child_of_kind_from(t: Seq<NodeView>, i: int, k: Seq<char>, j: int) -> bool
    decreases t.len() - j,
{
    if j < 0 || j >= t.len() || t[j].depth <= t[i].depth {
        false
    } else if t[j].depth == t[i].depth + 1 && t[j].kind == k {
        true
    } else {
        child_of_kind_from(t, i, k, j + 1)
    }
}

/// How many children of node `i` (from node `j` on) have kind `k`.
pub open spec fn count_children_from(t: Seq<NodeView>, i: int, k: Seq<char>, j: int) -> nat
    decreases t.len() - j,
{
    if j < 0 || j >= t.len() || t[j].depth <= t[i].depth {
        0
    } else if t[j].depth == t[i].depth + 1 && t[j].kind == k {
        1 + count_children_from(t, i, k, j + 1)
    } else {
        count_children_from(t, i, k, j + 1)
    }
}

/// Whether a function node is async: an async function kind, or an
/// `async` child.
pub open spec fn js_is_async(t: Seq<NodeView>, i: int) -> bool {
    t[i].kind == "async_function"@ || t[i].kind == "async_function_declaration"@ || child_of_kind_from(t, i, "async"@, i + 1)
}

/// Whether a function node is a generator: a generator kind, or a `*`
/// child.
pub open spec fn js_is_generator(t: Seq<NodeView>, i: int) -> bool {
    t[i].kind == "generator_function"@ || t[i].kind == "generator_function_declaration"@ || child_of_kind_from(t, i, "*"@, i + 1)
}

/// A parameter's name: its `name`, `pattern`, `left` or `argument` child's
/// text, else its own text.
pub open spec fn js_param_name(t: Seq<NodeView>, src: Seq<u8>, j: int) -> Seq<char> {
    match field_text(t, src, j, "name"@) {
        Some(x) => x,
        None => match field_text(t, src, j, "pattern"@) {
            Some(x) => x,
            None => match field_text(t, src, j, "left"@) {
                Some(x) => x,
                None => match field_text(t, src, j, "argument"@) {
                    Some(x) => x,
                    None => node_text(src, t[j]),
                },
            },
        },
    }
}

/// The named parameters among `kids`, untyped.
pub open spec fn js_params(t: Seq<NodeView>, src: Seq<u8>, kids: Seq<int>) -> Seq<(Seq<char>, Seq<char>)>
    decreases kids.len(),
{
    if kids.len() == 0 {
        Seq::empty()
    } else {
        let prev = js_params(t, src, kids.drop_last());
        let name = js_param_name(t, src, kids.last());
        if name.len() > 0 {
            prev.push((name, Seq::empty()))
        } else {
            prev
        }
    }
}

/// The parameters of the function node `i`.
pub open spec fn js_params_of(t: Seq<NodeView>, src: Seq<u8>, i: int) -> Seq<(Seq<char>, Seq<char>)> {
    match field_child(t, i, "parameters"@) {
        Some(p) => js_params(t, src, named_children(t, p)),
        None => Seq::empty(),
    }
}

/// The class around node `i` (looking from depth `k` up): the nearest
/// class ancestor's name (none when that class is anonymous).
pub open spec fn js_enclosing_class(t: Seq<NodeView>, src: Seq<u8>, i: int, k: int) -> Option<Seq<char>>
    decreases k + 1,
{
    if k < 0 {
        None
    } else {
        match last_at_depth(t, k, i) {
            Some(a) => if t[a].kind == "class_declaration"@ || t[a].kind == "class"@ {
                field_text(t, src, a, "name"@)
            } else {
                js_enclosing_class(t, src, i, k - 1)
            },
            None => js_enclosing_class(t, src, i, k - 1),
        }
    }
}

pub open spec fn parent_of(t: Seq<NodeView>, i: int) -> Option<int> {
    last_at_depth(t, t[i].depth - 1, i)
}

/// The text a variable's function chunk takes out of the remainder: the
/// whole declaration (its parent) when it declares only this variable,
/// widened to the grandparent when that is a `let`/`const` declaration
/// around a `var` declaration; else the declarator.
pub open spec fn removal_span(t: Seq<NodeView>, i: int) -> Span {
    match parent_of(t, i) {
        Some(p) => if (t[p].kind == "lexical_declaration"@ || t[p].kind == "variable_declaration"@)
            && count_children_from(t, p, "variable_declarator"@, p + 1) == 1 {
            let outer = if t[p].kind == "variable_declaration"@ {
                match last_at_depth(t, t[i].depth - 2, i) {
                    Some(g) => if t[g].kind == "lexical_declaration"@ {
                        g
                    } else {
                        p
                    },
                    None => p,
                }
            } else {
                p
            };
            (t[outer].start, t[outer].end)
        } else {
            (t[i].start, t[i].end)
        },
        None => (t[i].start, t[i].end),
    }
}

/// The function expression a variable declarator binds, when its name and
/// value are present and the value is one.
pub open spec fn bound_function(t: Seq<NodeView>, i: int) -> Option<int> {
    if t[i].kind == "variable_declarator"@ && field_child(t, i, "name"@) is Some {
        match field_child(t, i, "value"@) {
            Some(v) => if is_js_function_expr(t[v].kind) {
                Some(v)
            } else {
                None
            },
            None => None,
        }
    } else {
        None
    }
}

/// Whether node `i` becomes a chunk.
pub open spec fn is_js_chunk_node(t: Seq<NodeView>, i: int) -> bool {
    ||| (is_js_function_decl(t[i].kind) || t[i].kind == "method_definition"@) && field_child(t, i, "name"@) is Some
    ||| bound_function(t, i) is Some
}

/// The chunk of node `i`: a declaration's or method's name, parameters and
/// flags (a method's class); a variable's name with its function's
/// parameters and flags, the function's kind as chunk type.
pub open spec fn is_js_node_chunk(c: CodeChunk, t: Seq<NodeView>, src: Seq<u8>, i: int, file_path: Seq<char>, deps: Seq<Seq<char>>) -> bool {
    let fname = field_text(t, src, i, "name"@);
    match bound_function(t, i) {
        Some(v) => {
            &&& is_extracted_chunk(c, file_path, id_name(seq![fname, None]), node_text(src, t[i]), t[v].kind, deps)
            &&& c.kind matches CodeChunkKind::JavaScript(f) && {
                &&& opt_view(f.function_name) == fname
                &&& f.class_name is None
                &&& params_view(f.parameters@) == js_params_of(t, src, v)
                &&& f.return_type is None
                &&& !f.is_method
                &&& f.is_async == js_is_async(t, v)
                &&& f.is_generator == js_is_generator(t, v)
            }
        },
        None => {
            let is_method = t[i].kind == "method_definition"@;
            let cname = if is_method {
                js_enclosing_class(t, src, i, t[i].depth - 1)
            } else {
                None
            };
            &&& is_extracted_chunk(c, file_path, id_name(seq![fname, cname]), node_text(src, t[i]), t[i].kind, deps)
            &&& c.kind matches CodeChunkKind::JavaScript(f) && {
                &&& opt_view(f.function_name) == fname
                &&& opt_view(f.class_name) == cname
                &&& params_view(f.parameters@) == js_params_of(t, src, i)
                &&& f.return_type is None
                &&& f.is_method == is_method
                &&& f.is_async == js_is_async(t, i)
                &&& f.is_generator == js_is_generator(t, i)
            }
        },
    }
}

pub open spec fn js_chunk_nodes(t: Seq<NodeView>, n: int) -> Seq<int>
    decreases n,
{
    if n <= 0 {
        Seq::empty()
    } else if is_js_chunk_node(t, n - 1) {
        js_chunk_nodes(t, n - 1).push(n - 1)
    } else {
        js_chunk_nodes(t, n - 1)
    }
}

/// The ranges the chunks among the first `n` nodes take out of the
/// remainder.
pub open spec fn js_spans(t: Seq<NodeView>, n: int) -> Seq<Span>
    decreases n,
{
    if n <= 0 {
        Seq::empty()
    } else if is_js_chunk_node(t, n - 1) {
        js_spans(t, n - 1).push(
            if bound_function(t, n - 1) is Some {
                removal_span(t, n - 1)
            } else {
                (t[n - 1].start, t[n - 1].end)
            },
        )
    } else {
        js_spans(t, n - 1)
    }
}

/// `r` holds the chunks of a parsed JavaScript file in document order,
/// then the remainder chunk when they leave any text.
pub open spec fn js_chunks_ok(r: Seq<CodeChunk>, t: Seq<NodeView>, src: Seq<u8>, file_path: Seq<char>, deps: Seq<Seq<char>>) -> bool {
    let idx = js_chunk_nodes(t, t.len() as int);
    let spans = js_spans(t, t.len() as int);
    &&& r.len() == idx.len() + if has_remainder(src, spans) { 1int } else { 0int }
    &&& forall|k: int| 0 <= k < idx.len() ==> is_js_node_chunk(#[trigger] r[k], t, src, idx[k], file_path, deps)
    &&& has_remainder(src, spans) ==> is_remainder_chunk(r[idx.len() as int], src, spans, file_path, deps)
}

/// The modules the first `n` nodes import (each import's `source`, trimmed
/// and unquoted), non-empty and each once, in document order.
pub open spec fn js_deps(t: Seq<NodeView>, src: Seq<u8>, n: int) -> Seq<Seq<char>>
    decreases n,
{
    if n <= 0 {
        Seq::empty()
    } else {
        let prev = js_deps(t, src, n - 1);
        if t[n - 1].kind == "import_statement"@ || t[n - 1].kind == "import_declaration"@ {
            match field_text(t, src, n - 1, "source"@) {
                Some(s) => {
                    let d = unquoted_source(trim_spec(s));
                    if d.len() > 0 && !prev.contains(d) {
                        prev.push(d)
                    } else {
                        prev
                    }
                },
                None => prev,
            }
        } else {
            prev
        }
    }
}

pub(crate) fn child_of_kind(t: &Vec<SyntaxNode>, i: usize, k: &str) -> (r: bool)
    requires
        i < t@.len(),
    ensures
        r == child_of_kind_from(nodes_view(t@), i as int, k@, i + 1),
{
    let ghost tv = nodes_view(t@);
    assert(tv[i as int] == t@[i as int]@);
    let d = t[i].depth;
    let n = t.len();
    let mut j = i + 1;
    while j < t.len() && t[j].depth > d
        invariant
            i < j <= t@.len(),
            tv == nodes_view(t@),
            d == tv[i as int].depth,
            child_of_kind_from(tv, i as int, k@, j as int) == child_of_kind_from(tv, i as int, k@, i + 1),
        decreases t.len() - j,
    {
        assert(tv[j as int] == t@[j as int]@);
        if t[j].depth == d + 1 && str_eq(t[j].kind.as_str(), k) {
            return true;
        }
        j += 1;
    }
    proof {
        if j < t@.len() {
            assert(tv[j as int] == t@[j as int]@);
        }
    }
    false
}

proof fn lemma_count_children_bound(t: Seq<NodeView>, i: int, k: Seq<char>, j: int)
    requires
        0 <= j,
    ensures
        count_children_from(t, i, k, j) <= if j <= t.len() { t.len() - j } else { 0 },
    decreases t.len() - j,
{
    if !(j < 0 || j >= t.len() || t[j].depth <= t[i].depth) {
        lemma_count_children_bound(t, i, k, j + 1);
    }
}

pub(crate) fn count_children(t: &Vec<SyntaxNode>, i: usize, k: &str) -> (r: usize)
    requires
        i < t@.len(),
    ensures
        r == count_children_from(nodes_view(t@), i as int, k@, i + 1),
{
    let ghost tv = nodes_view(t@);
    assert(tv[i as int] == t@[i as int]@);
    let d = t[i].depth;
    let n = t.len();
    let mut count: usize = 0;
    let mut j = i + 1;
    while j < t.len() && t[j].depth > d
        invariant
            i < j <= t@.len(),
            tv == nodes_view(t@),
            d == tv[i as int].depth,
            count <= j - i - 1,
            count + count_children_from(tv, i as int, k@, j as int) == count_children_from(tv, i as int, k@, i + 1),
        decreases t.len() - j,
    {
        assert(tv[j as int] == t@[j as int]@);
        if t[j].depth == d + 1 && str_eq(t[j].kind.as_str(), k) {
            count += 1;
        }
        j += 1;
    }
    proof {
        if j < t@.len() {
            assert(tv[j as int] == t@[j as int]@);
        }
    }
    count
}

fn js_is_async_of(t: &Vec<SyntaxNode>, i: usize) -> (r: bool)
    requires
        i < t@.len(),
    ensures
        r == js_is_async(nodes_view(t@), i as int),
{
    assert(nodes_view(t@)[i as int] == t@[i as int]@);
    let k = t[i].kind.as_str();
    str_eq(k, "async_function") || str_eq(k, "async_function_declaration") || child_of_kind(t, i, "async")
}

fn js_is_generator_of(t: &Vec<SyntaxNode>, i: usize) -> (r: bool)
    requires
        i < t@.len(),
    ensures
        r == js_is_generator(nodes_view(t@), i as int),
{
    assert(nodes_view(t@)[i as int] == t@[i as int]@);
    let k = t[i].kind.as_str();
    str_eq(k, "generator_function") || str_eq(k, "generator_function_declaration") || child_of_kind(t, i, "*")
}

fn js_param_name_of(t: &Vec<SyntaxNode>, src: &[u8], j: usize) -> (r: String)
    requires
        j < t@.len(),
    ensures
        r@ == js_param_name(nodes_view(t@), src@, j as int),
{
    assert(nodes_view(t@)[j as int] == t@[j as int]@);
    match field_text_of(t, src, j, "name") {
        Some(x) => x,
        None => match field_text_of(t, src, j, "pattern") {
            Some(x) => x,
            None => match field_text_of(t, src, j, "left") {
                Some(x) => x,
                None => match field_text_of(t, src, j, "argument") {
                    Some(x) => x,
                    None => text_of(src, &t[j]),
                },
            },
        },
    }
}

/// The parameters of function node `i`, untyped (see `js_params_of`).
pub fn js_parameters(t: &Vec<SyntaxNode>, src: &[u8], i: usize) -> (r: Vec<Parameter>)
    requires
        i < t@.len(),
    ensures
        params_view(r@) == js_params_of(nodes_view(t@), src@, i as int),
{
    let ghost tv = nodes_view(t@);
    let mut params: Vec<Parameter> = Vec::new();
    match field_child_of(t, i, "parameters") {
        Some(p) => {
            let kids = named_children_of(t, p);
            let ghost ks = named_children(tv, p as int);
            let mut k: usize = 0;
            while k < kids.len()
                invariant
                    k <= kids.len(),
                    tv == nodes_view(t@),
                    kids@.len() == ks.len(),
                    forall|q: int| 0 <= q < kids@.len() ==> kids@[q] as int == ks[q] && #[trigger] kids@[q] < t@.len(),
                    params_view(params@) == js_params(tv, src@, ks.take(k as int)),
                decreases kids.len() - k,
            {
                let j = kids[k];
                assert(ks.take(k + 1).drop_last() =~= ks.take(k as int));
                assert(ks.take(k + 1).last() == j as int);
                let ghost before = params_view(params@);
                let name = js_param_name_of(t, src, j);
                if !name.as_str().is_empty() {
                    params.push(Parameter { name, param_type: String::new() });
                    assert(params_view(params@) =~= before.push((name@, Seq::<char>::empty())));
                }
                k += 1;
            }
            assert(ks.take(kids.len() as int) =~= ks);
        },
        None => {},
    }
    params
}

fn js_enclosing_class_of(t: &Vec<SyntaxNode>, src: &[u8], last: &Vec<Option<usize>>, i: usize) -> (r: Option<String>)
    requires
        i < t@.len(),
        tracks_last(nodes_view(t@), last@, i as int),
    ensures
        opt_view(r) == js_enclosing_class(nodes_view(t@), src@, i as int, t@[i as int].depth - 1),
{
    let ghost tv = nodes_view(t@);
    assert(tv[i as int] == t@[i as int]@);
    let mut k = t[i].depth;
    while k > 0
        invariant
            k <= t@[i as int].depth,
            tv == nodes_view(t@),
            i < t@.len(),
            tracks_last(tv, last@, i as int),
            js_enclosing_class(tv, src@, i as int, k - 1) == js_enclosing_class(tv, src@, i as int, t@[i as int].depth - 1),
        decreases k,
    {
        match ancestor_at(t, last, i, k - 1) {
            Some(a) => {
                assert(tv[a as int] == t@[a as int]@);
                let kind = t[a].kind.as_str();
                if str_eq(kind, "class_declaration") || str_eq(kind, "class") {
                    return field_text_of(t, src, a, "name");
                }
            },
            None => {},
        }
        k -= 1;
    }
    None
}

fn parent_index(t: &Vec<SyntaxNode>, last: &Vec<Option<usize>>, i: usize) -> (r: Option<usize>)
    requires
        i < t@.len(),
        tracks_last(nodes_view(t@), last@, i as int),
    ensures
        match r {
            Some(p) => parent_of(nodes_view(t@), i as int) == Some(p as int) && p < i,
            None => parent_of(nodes_view(t@), i as int) is None,
        },
{
    let ghost tv = nodes_view(t@);
    assert(tv[i as int] == t@[i as int]@);
    let d = t[i].depth;
    if d == 0 {
        proof {
            lemma_last_at_depth_bounds(tv, -1, i as int);
        }
        None
    } else {
        ancestor_at(t, last, i, d - 1)
    }
}

fn removal_span_of(t: &Vec<SyntaxNode>, last: &Vec<Option<usize>>, i: usize) -> (r: Span)
    requires
        i < t@.len(),
        tracks_last(nodes_view(t@), last@, i as int),
    ensures
        r == removal_span(nodes_view(t@), i as int),
{
    let ghost tv = nodes_view(t@);
    assert(tv[i as int] == t@[i as int]@);
    match parent_index(t, last, i) {
        Some(p) => {
            assert(tv[p as int] == t@[p as int]@);
            let pk = t[p].kind.as_str();
            if (str_eq(pk, "lexical_declaration") || str_eq(pk, "variable_declaration")) && count_children(t, p, "variable_declarator") == 1 {
                let mut outer = p;
                if str_eq(pk, "variable_declaration") {
                    let d = t[i].depth;
                    let g = if d >= 2 {
                        ancestor_at(t, last, i, d - 2)
                    } else {
                        proof {
                            lemma_last_at_depth_bounds(tv, d - 2, i as int);
                        }
                        None
                    };
                    match g {
                        Some(g) => {
                            assert(tv[g as int] == t@[g as int]@);
                            if str_eq(t[g].kind.as_str(), "lexical_declaration") {
                                outer = g;
                            }
                        },
                        None => {},
                    }
                }
                assert(tv[outer as int] == t@[outer as int]@);
                (t[outer].start, t[outer].end)
            } else {
                (t[i].start, t[i].end)
            }
        },
        None => (t[i].start, t[i].end),
    }
}

fn bound_function_of(t: &Vec<SyntaxNode>, i: usize) -> (r: Option<usize>)
    requires
        i < t@.len(),
    ensures
        match r {
            Some(v) => bound_function(nodes_view(t@), i as int) == Some(v as int) && v < t@.len(),
            None => bound_function(nodes_view(t@), i as int) is None,
        },
{
    assert(nodes_view(t@)[i as int] == t@[i as int]@);
    if !str_eq(t[i].kind.as_str(), "variable_declarator") || field_child_of(t, i, "name").is_none() {
        return None;
    }
    match field_child_of(t, i, "value") {
        Some(v) => {
            assert(nodes_view(t@)[v as int] == t@[v as int]@);
            let vk = t[v].kind.as_str();
            if str_eq(vk, "arrow_function") || str_eq(vk, "function_expression") || str_eq(vk, "generator_function") {
                Some(v)
            } else {
                None
            }
        },
        None => None,
    }
}

/// The chunks of a parsed JavaScript file in document order, then the
/// remainder chunk when they leave any text.
pub fn extract_chunks(nodes: &Vec<SyntaxNode>, source: &[u8], file_path: &str, deps: &Vec<String>) -> (r: Vec<CodeChunk>)
    ensures
        js_chunks_ok(r@, nodes_view(nodes@), source@, file_path@, views(deps@)),
{
    let ghost tv = nodes_view(nodes@);
    let mut chunks: Vec<CodeChunk> = Vec::new();
    let mut spans: Vec<Span> = Vec::new();
    let mut last: Vec<Option<usize>> = Vec::new();
    let mut i: usize = 0;
    while i < nodes.len()
        invariant
            i <= nodes@.len(),
            tv == nodes_view(nodes@),
            tracks_last(tv, last@, i as int),
            spans@ == js_spans(tv, i as int),
            chunks@.len() == js_chunk_nodes(tv, i as int).len(),
            forall|k: int| 0 <= k < chunks@.len() ==> is_js_node_chunk(#[trigger] chunks@[k], tv, source@, js_chunk_nodes(tv, i as int)[k], file_path@, views(deps@)),
        decreases nodes.len() - i,
    {
        let node = &nodes[i];
        assert(tv[i as int] == nodes@[i as int]@);
        let kind = node.kind.as_str();
        let ghost prev = chunks@;
        let ghost prev_idx = js_chunk_nodes(tv, i as int);
        let mut made: Option<(CodeChunk, Span)> = None;
        match bound_function_of(nodes, i) {
            Some(v) => {
                assert(tv[v as int] == nodes@[v as int]@);
                let function_name = field_text_of(nodes, source, i, "name");
                let parameters = js_parameters(nodes, source, v);
                let is_async = js_is_async_of(nodes, v);
                let is_generator = js_is_generator_of(nodes, v);
                let code = text_of(source, node);
                let c = make_js_chunk(file_path, function_name, None, parameters, false, is_async, is_generator, code, nodes[v].kind.as_str(), deps);
                assert(is_js_node_chunk(c, tv, source@, i as int, file_path@, views(deps@)));
                made = Some((c, removal_span_of(nodes, &last, i)));
            },
            None => {
                let is_method = str_eq(kind, "method_definition");
                if (is_method || str_eq(kind, "function_declaration") || str_eq(kind, "generator_function_declaration"))
                    && field_child_of(nodes, i, "name").is_some() {
                    let function_name = field_text_of(nodes, source, i, "name");
                    let parameters = js_parameters(nodes, source, i);
                    let class_name = if is_method {
                        js_enclosing_class_of(nodes, source, &last, i)
                    } else {
                        None
                    };
                    let is_async = js_is_async_of(nodes, i);
                    let is_generator = js_is_generator_of(nodes, i);
                    let code = text_of(source, node);
                    let c = make_js_chunk(file_path, function_name, class_name, parameters, is_method, is_async, is_generator, code, kind, deps);
                    assert(is_js_node_chunk(c, tv, source@, i as int, file_path@, views(deps@)));
                    made = Some((c, (node.start, node.end)));
                }
            },
        }
        match made {
            Some((c, sp)) => {
                assert(is_js_chunk_node(tv, i as int));
                chunks.push(c);
                spans.push(sp);
                assert(js_chunk_nodes(tv, i + 1) == prev_idx.push(i as int));
                assert forall|k: int| 0 <= k < chunks@.len() implies is_js_node_chunk(#[trigger] chunks@[k], tv, source@, js_chunk_nodes(tv, i + 1)[k], file_path@, views(deps@)) by {
                    if k < prev.len() {
                        assert(chunks@[k] == prev[k]);
                    }
                }
            },
            None => {
                assert(!is_js_chunk_node(tv, i as int));
                assert(js_chunk_nodes(tv, i + 1) == prev_idx);
            },
        }
        track_node(nodes, &mut last, i);
        i += 1;
    }
    match make_remainder_chunk(source, spans.as_slice(), file_path, deps) {
        Some(rc) => {
            chunks.push(rc);
        },
        None => {},
    }
    chunks
}

/// The modules a parsed JavaScript file imports, each once, in document
/// order (see `js_deps`).
pub fn extract_dependencies(nodes: &Vec<SyntaxNode>, source: &[u8]) -> (r: Vec<String>)
    ensures
        views(r@) == js_deps(nodes_view(nodes@), source@, nodes@.len() as int),
{
    let ghost tv = nodes_view(nodes@);
    let mut deps: Vec<String> = Vec::new();
    let mut i: usize = 0;
    while i < nodes.len()
        invariant
            i <= nodes@.len(),
            tv == nodes_view(nodes@),
            views(deps@) == js_deps(tv, source@, i as int),
        decreases nodes.len() - i,
    {
        assert(tv[i as int] == nodes@[i as int]@);
        let kind = nodes[i].kind.as_str();
        if str_eq(kind, "import_statement") || str_eq(kind, "import_declaration") {
            match field_text_of(nodes, source, i, "source") {
                Some(s) => {
                    let d = strip_js_import_source(trim_str(s.as_str()).as_str());
                    if !d.as_str().is_empty() && !contains_string(&deps, d.as_str()) {
                        push_string(&mut deps, d);
                    }
                },
                None => {},
            }
        }
        i += 1;
    }
    deps
}

/// The chunks of a JavaScript source file, with its imports as
/// dependencies; none when the source does not parse.
pub fn chunk_js_source(source: &[u8], file_path: &str) -> (r: Vec<CodeChunk>)
    ensures
        match js_syntax_spec(source@) {
            Some(t) => js_chunks_ok(r@, t, source@, file_path@, js_deps(t, source@, t.len() as int)),
            None => r@.len() == 0,
        },
{
    match parse_js(source) {
        Some(nodes) => {
            let deps = extract_dependencies(&nodes, source);
            extract_chunks(&nodes, source, file_path, &deps)
        },
        None => Vec::new(),
    }
}

/// The modules a JavaScript source file imports; none when it does not
/// parse.
pub fn js_source_dependencies(source: &[u8]) -> (r: Vec<String>)
    ensures
        match js_syntax_spec(source@) {
            Some(t) => views(r@) == js_deps(t, source@, t.len() as int),
            None => r@.len() == 0,
        },
{
    match parse_js(source) {
        Some(nodes) => extract_dependencies(&nodes, source),
        None => Vec::new(),
    }
}

} // verus!
