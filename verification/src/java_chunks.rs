//! The Java chunker: every method, constructor, class, interface and enum
//! becomes a chunk (methods are also chunked inside classes); the package
//! is the namespace; what the method chunks leave of the file becomes the
//! remainder chunk.
use vstd::prelude::*;
use crate::syntax::{
    SyntaxNode, NodeView, nodes_view, node_text, field_child, field_text, named_children, last_at_depth,
    parse_java, java_syntax_spec, text_of, field_child_of, field_text_of, named_children_of, tracks_last,
    track_node, lemma_last_at_depth_bounds,
};
use crate::code_chunk::CodeChunk;
use crate::chunk_types::{CodeChunkKind, Parameter, opt_view, params_view, copy_opt};
use crate::chunk_make::{make_java_chunk, is_extracted_chunk, id_name};
use crate::imports::{normalize_java_import, java_import};
use crate::spans::{Span, remainder_bytes};
use crate::sql::{make_remainder_chunk, base_name};
use crate::normalize::normalize_code_spec;
use crate::text::{trim_spec, trim_str, str_eq, utf8_lossy_spec};
use crate::seqtext::{views, push_string};
use crate::patterns::{replaced, replace_literal};

verus! {

pub open spec fn is_java_function(k: Seq<char>) -> bool {
    k == "method_declaration"@ || k == "constructor_declaration"@
}

pub open spec fn is_java_type(k: Seq<char>) -> bool {
    k == "class_declaration"@ || k == "interface_declaration"@ || k == "enum_declaration"@
}

pub open spec fn or_empty(o: Option<Seq<char>>) -> Seq<char> {
    match o {
        Some(s) => s,
        None => Seq::empty(),
    }
}

/// The name of the nearest class, interface or enum around node `i` that
/// has a name, looking at its ancestors from depth `k` up to the root.
pub open spec fn enclosing_decl_name(t: Seq<NodeView>, src: Seq<u8>, i: int, k: int) -> Option<Seq<char>>
    decreases k + 1,
{
    if k < 0 {
        None
    } else {
        match last_at_depth(t, k, i) {
            Some(a) => if is_java_type(t[a].kind) && field_text(t, src, a, "name"@) is Some {
                field_text(t, src, a, "name"@)
            } else {
                enclosing_decl_name(t, src, i, k - 1)
            },
            None => enclosing_decl_name(t, src, i, k - 1),
        }
    }
}

/// The parameter a `formal_parameter` or `spread_parameter` node gives:
/// its name and type, or just its type when it has no name.
pub open spec fn java_param(t: Seq<NodeView>, src: Seq<u8>, j: int) -> Option<(Seq<char>, Seq<char>)> {
    if t[j].kind == "formal_parameter"@ || t[j].kind == "spread_parameter"@ {
        let name = or_empty(field_text(t, src, j, "name"@));
        let ty = or_empty(field_text(t, src, j, "type"@));
        if name.len() > 0 {
            Some((name, ty))
        } else if ty.len() > 0 {
            Some((ty, Seq::empty()))
        } else {
            None
        }
    } else {
        None
    }
}

/// The parameters of the given parameter-list children, in order.
pub open spec fn java_params(t: Seq<NodeView>, src: Seq<u8>, kids: Seq<int>) -> Seq<(Seq<char>, Seq<char>)>
    decreases kids.len(),
{
    if kids.len() == 0 {
        Seq::empty()
    } else {
        let prev = java_params(t, src, kids.drop_last());
        match java_param(t, src, kids.last()) {
            Some(p) => prev.push(p),
            None => prev,
        }
    }
}

/// The parameters of method or constructor node `i`.
pub open spec fn java_params_of(t: Seq<NodeView>, src: Seq<u8>, i: int) -> Seq<(Seq<char>, Seq<char>)> {
    match field_child(t, i, "parameters"@) {
        Some(p) => java_params(t, src, named_children(t, p)),
        None => Seq::empty(),
    }
}

/// The chunk of node `i`: for a method or constructor, its name, the
/// enclosing type's name, its parameters and (for a method) its return
/// type; for a type, its name; the namespace; the node's text as code and
/// its kind as chunk type.
pub open spec fn is_java_node_chunk(
    c: CodeChunk,
    t: Seq<NodeView>,
    src: Seq<u8>,
    i: int,
    file_path: Seq<char>,
    deps: Seq<Seq<char>>,
    ns: Option<Seq<char>>,
) -> bool {
    let is_fn = is_java_function(t[i].kind);
    let fname = if is_fn {
        field_text(t, src, i, "name"@)
    } else {
        None
    };
    let cname = if is_fn {
        enclosing_decl_name(t, src, i, t[i].depth - 1)
    } else {
        field_text(t, src, i, "name"@)
    };
    &&& is_extracted_chunk(c, file_path, id_name(seq![fname, cname]), node_text(src, t[i]), t[i].kind, deps)
    &&& c.kind matches CodeChunkKind::Java(f) && {
        &&& opt_view(f.function_name) == fname
        &&& opt_view(f.class_name) == cname
        &&& params_view(f.parameters@) == if is_fn {
            java_params_of(t, src, i)
        } else {
            Seq::empty()
        }
        &&& opt_view(f.return_type) == if is_fn && t[i].kind != "constructor_declaration"@ {
            field_text(t, src, i, "type"@)
        } else {
            None
        }
        &&& opt_view(f.namespace) == ns
    }
}

/// The nodes among the first `n` that become chunks, in document order.
pub open spec fn java_chunk_nodes(t: Seq<NodeView>, n: int) -> Seq<int>
    decreases n,
{
    if n <= 0 {
        Seq::empty()
    } else if is_java_function(t[n - 1].kind) || is_java_type(t[n - 1].kind) {
        java_chunk_nodes(t, n - 1).push(n - 1)
    } else {
        java_chunk_nodes(t, n - 1)
    }
}

/// The byte ranges of the methods and constructors among the first `n`
/// nodes: what the remainder leaves out.
pub open spec fn java_spans(t: Seq<NodeView>, n: int) -> Seq<Span>
    decreases n,
{
    if n <= 0 {
        Seq::empty()
    } else if is_java_function(t[n - 1].kind) {
        java_spans(t, n - 1).push((t[n - 1].start, t[n - 1].end))
    } else {
        java_spans(t, n - 1)
    }
}

/// `c` is the remainder chunk of a file: what the spans leave of the
/// source, normalized, under the file's name.
pub open spec fn is_remainder_chunk(c: CodeChunk, src: Seq<u8>, spans: Seq<Span>, file_path: Seq<char>, deps: Seq<Seq<char>>) -> bool {
    &&& crate::sql::is_uuid_v4_text(c.id@, true)
    &&& c.repo_name@.len() == 0
    &&& c.file_name@ == base_name(file_path)
    &&& c.code@ == normalize_code_spec(utf8_lossy_spec(remainder_bytes(src, spans)))
    &&& c.chunk_type@ == "file_remainder"@
    &&& views(c.dependencies@) == deps
    &&& c.kind == CodeChunkKind::Generic
}

/// Whether the spans leave any non-blank text of the source.
pub open spec fn has_remainder(src: Seq<u8>, spans: Seq<Span>) -> bool {
    trim_spec(utf8_lossy_spec(remainder_bytes(src, spans))).len() > 0
}

fn is_fn_kind(k: &str) -> (r: bool)
    ensures
        r == is_java_function(k@),
{
    str_eq(k, "method_declaration") || str_eq(k, "constructor_declaration")
}

fn is_type_kind(k: &str) -> (r: bool)
    ensures
        r == is_java_type(k@),
{
    str_eq(k, "class_declaration") || str_eq(k, "interface_declaration") || str_eq(k, "enum_declaration")
}

fn or_empty_string(o: Option<String>) -> (r: String)
    ensures
        r@ == or_empty(opt_view(o)),
{
    match o {
        Some(s) => s,
        None => String::new(),
    }
}

fn java_parameters(t: &Vec<SyntaxNode>, src: &[u8], i: usize) -> (r: Vec<Parameter>)
    requires
        i < t@.len(),
    ensures
        params_view(r@) == java_params_of(nodes_view(t@), src@, i as int),
{
    let ghost tv = nodes_view(t@);
    let mut params: Vec<Parameter> = Vec::new();
    match field_child_of(t, i, "parameters") {
        Some(p) => {
            let kids = named_children_of(t, p);
            let ghost ks = named_children(tv, p as int);
            let mut k: usize = 0;
            while k < kids.len()
                invariant
                    k <= kids.len(),
                    tv == nodes_view(t@),
                    kids@.len() == ks.len(),
                    forall|q: int| 0 <= q < kids@.len() ==> kids@[q] as int == ks[q] && #[trigger] kids@[q] < t@.len(),
                    params_view(params@) == java_params(tv, src@, ks.take(k as int)),
                decreases kids.len() - k,
            {
                let j = kids[k];
                assert(ks.take(k + 1).drop_last() =~= ks.take(k as int));
                assert(ks.take(k + 1).last() == j as int);
                assert(tv[j as int] == t@[j as int]@);
                let kind = t[j].kind.as_str();
                if str_eq(kind, "formal_parameter") || str_eq(kind, "spread_parameter") {
                    let name = or_empty_string(field_text_of(t, src, j, "name"));
                    let ty = or_empty_string(field_text_of(t, src, j, "type"));
                    let ghost before = params_view(params@);
                    if !name.as_str().is_empty() {
                        params.push(Parameter { name, param_type: ty });
                        assert(params_view(params@) =~= before.push((name@, ty@)));
                    } else if !ty.as_str().is_empty() {
                        params.push(Parameter { name: ty, param_type: String::new() });
                        assert(params_view(params@) =~= before.push((ty@, Seq::<char>::empty())));
                    }
                }
                k += 1;
            }
            assert(ks.take(kids.len() as int) =~= ks);
        },
        None => {},
    }
    params
}

fn enclosing_type_of(t: &Vec<SyntaxNode>, src: &[u8], last: &Vec<Option<usize>>, i: usize) -> (r: Option<String>)
    requires
        i < t@.len(),
        tracks_last(nodes_view(t@), last@, i as int),
    ensures
        opt_view(r) == enclosing_decl_name(nodes_view(t@), src@, i as int, t@[i as int].depth - 1),
{
    let ghost tv = nodes_view(t@);
    assert(tv[i as int] == t@[i as int]@);
    let mut k = t[i].depth;
    while k > 0
        invariant
            k <= t@[i as int].depth,
            tv == nodes_view(t@),
            i < t@.len(),
            tracks_last(tv, last@, i as int),
            enclosing_decl_name(tv, src@, i as int, k - 1) == enclosing_decl_name(tv, src@, i as int, t@[i as int].depth - 1),
        decreases k,
    {
        let level = k - 1;
        let found: Option<usize> = if level < last.len() {
            last[level]
        } else {
            None
        };
        proof {
            if level < last@.len() {
                assert(match last@[level as int] {
                    Some(a) => last_at_depth(tv, level as int, i as int) == Some(a as int),
                    None => last_at_depth(tv, level as int, i as int) is None,
                });
            } else {
                assert(last_at_depth(tv, level as int, i as int) is None);
            }
            lemma_last_at_depth_bounds(tv, level as int, i as int);
        }
        match found {
            Some(a) => {
                assert(tv[a as int] == t@[a as int]@);
                if is_type_kind(t[a].kind.as_str()) {
                    let name = field_text_of(t, src, a, "name");
                    if name.is_some() {
                        return name;
                    }
                }
            },
            None => {},
        }
        k -= 1;
    }
    None
}

/// `r` holds the chunks of a parsed Java file: one per method,
/// constructor, class, interface and enum in document order, then the
/// remainder chunk when the methods and constructors leave any text.
pub open spec fn java_chunks_ok(r: Seq<CodeChunk>, t: Seq<NodeView>, src: Seq<u8>, file_path: Seq<char>, deps: Seq<Seq<char>>, ns: Option<Seq<char>>) -> bool {
    let idx = java_chunk_nodes(t, t.len() as int);
    let spans = java_spans(t, t.len() as int);
    &&& r.len() == idx.len() + if has_remainder(src, spans) { 1int } else { 0int }
    &&& forall|k: int| 0 <= k < idx.len() ==> is_java_node_chunk(#[trigger] r[k], t, src, idx[k], file_path, deps, ns)
    &&& has_remainder(src, spans) ==> is_remainder_chunk(r[idx.len() as int], src, spans, file_path, deps)
}

/// The chunks of a parsed Java file: one per method, constructor, class,
/// interface and enum in document order, then the remainder chunk when the
/// methods and constructors leave any text.
pub fn extract_chunks(nodes: &Vec<SyntaxNode>, source: &[u8], file_path: &str, deps: &Vec<String>, namespace: Option<&str>) -> (r: Vec<CodeChunk>)
    ensures
        java_chunks_ok(r@, nodes_view(nodes@), source@, file_path@, views(deps@), match namespace {
            Some(s) => Some(s@),
            None => None,
        }),
{
    let ghost tv = nodes_view(nodes@);
    let ghost ns = match namespace {
        Some(s) => Some(s@),
        None => None,
    };
    let mut chunks: Vec<CodeChunk> = Vec::new();
    let mut spans: Vec<Span> = Vec::new();
    let mut last: Vec<Option<usize>> = Vec::new();
    let mut i: usize = 0;
    while i < nodes.len()
        invariant
            i <= nodes@.len(),
            tv == nodes_view(nodes@),
            ns == match namespace {
                Some(s) => Some(s@),
                None => None,
            },
            tracks_last(tv, last@, i as int),
            spans@ == java_spans(tv, i as int),
            chunks@.len() == java_chunk_nodes(tv, i as int).len(),
            forall|k: int| 0 <= k < chunks@.len() ==> is_java_node_chunk(#[trigger] chunks@[k], tv, source@, java_chunk_nodes(tv, i as int)[k], file_path@, views(deps@), ns),
        decreases nodes.len() - i,
    {
        let node = &nodes[i];
        assert(tv[i as int] == nodes@[i as int]@);
        let kind = node.kind.as_str();
        let ns_string: Option<String> = match namespace {
            Some(s) => Some(s.to_owned()),
            None => None,
        };
        let ghost prev = chunks@;
        let ghost prev_idx = java_chunk_nodes(tv, i as int);
        if is_fn_kind(kind) {
            let function_name = field_text_of(nodes, source, i, "name");
            let parameters = java_parameters(nodes, source, i);
            let return_type = if str_eq(kind, "constructor_declaration") {
                None
            } else {
                field_text_of(nodes, source, i, "type")
            };
            let class_name = enclosing_type_of(nodes, source, &last, i);
            let code = text_of(source, node);
            let c = make_java_chunk(file_path, function_name, class_name, parameters, return_type, ns_string, code, kind, deps);
            assert(is_java_node_chunk(c, tv, source@, i as int, file_path@, views(deps@), ns));
            chunks.push(c);
            spans.push((node.start, node.end));
            assert(java_chunk_nodes(tv, i + 1) == prev_idx.push(i as int));
            assert forall|k: int| 0 <= k < chunks@.len() implies is_java_node_chunk(#[trigger] chunks@[k], tv, source@, java_chunk_nodes(tv, i + 1)[k], file_path@, views(deps@), ns) by {
                if k < prev.len() {
                    assert(chunks@[k] == prev[k]);
                }
            }
        } else if is_type_kind(kind) {
            let decl_name = field_text_of(nodes, source, i, "name");
            let code = text_of(source, node);
            let c = make_java_chunk(file_path, None, decl_name, Vec::new(), None, ns_string, code, kind, deps);
            assert(params_view(Seq::<Parameter>::empty()) =~= Seq::<(Seq<char>, Seq<char>)>::empty());
            assert(is_java_node_chunk(c, tv, source@, i as int, file_path@, views(deps@), ns));
            chunks.push(c);
            assert(java_chunk_nodes(tv, i + 1) == prev_idx.push(i as int));
            assert forall|k: int| 0 <= k < chunks@.len() implies is_java_node_chunk(#[trigger] chunks@[k], tv, source@, java_chunk_nodes(tv, i + 1)[k], file_path@, views(deps@), ns) by {
                if k < prev.len() {
                    assert(chunks@[k] == prev[k]);
                }
            }
        } else {
            assert(java_chunk_nodes(tv, i + 1) == prev_idx);
        }
        track_node(nodes, &mut last, i);
        i += 1;
    }
    match make_remainder_chunk(source, spans.as_slice(), file_path, deps) {
        Some(rc) => {
            chunks.push(rc);
        },
        None => {},
    }
    chunks
}

// ---------------------------------------------------------------------------
// Imports and package
// ---------------------------------------------------------------------------

/// The imports among the first `n` nodes, normalized to the imported name,
/// non-empty and each once, in document order.
pub open spec fn java_deps(t: Seq<NodeView>, src: Seq<u8>, n: int) -> Seq<Seq<char>>
    decreases n,
{
    if n <= 0 {
        Seq::empty()
    } else {
        let prev = java_deps(t, src, n - 1);
        if t[n - 1].kind == "import_declaration"@ {
            let d = java_import(node_text(src, t[n - 1]));
            if d.len() > 0 && !prev.contains(d) {
                prev.push(d)
            } else {
                prev
            }
        } else {
            prev
        }
    }
}

pub(crate) fn contains_string(v: &Vec<String>, s: &str) -> (r: bool)
    ensures
        r == views(v@).contains(s@),
{
    let mut i: usize = 0;
    while i < v.len()
        invariant
            i <= v.len(),
            forall|k: int| 0 <= k < i ==> views(v@)[k] != s@,
        decreases v.len() - i,
    {
        if str_eq(v[i].as_str(), s) {
            assert(views(v@)[i as int] == s@);
            return true;
        }
        i += 1;
    }
    false
}

/// The imports of a parsed Java file, normalized, each once.
pub fn extract_dependencies(nodes: &Vec<SyntaxNode>, source: &[u8]) -> (r: Vec<String>)
    ensures
        views(r@) == java_deps(nodes_view(nodes@), source@, nodes@.len() as int),
{
    let ghost tv = nodes_view(nodes@);
    let mut deps: Vec<String> = Vec::new();
    let mut i: usize = 0;
    while i < nodes.len()
        invariant
            i <= nodes@.len(),
            tv == nodes_view(nodes@),
            views(deps@) == java_deps(tv, source@, i as int),
        decreases nodes.len() - i,
    {
        assert(tv[i as int] == nodes@[i as int]@);
        if str_eq(nodes[i].kind.as_str(), "import_declaration") {
            let d = normalize_java_import(text_of(source, &nodes[i]).as_str());
            if !d.as_str().is_empty() && !contains_string(&deps, d.as_str()) {
                push_string(&mut deps, d);
            }
        }
        i += 1;
    }
    deps
}

/// The package declared among the given root children: the first
/// `package_declaration`'s `name` child, else its text without `package`
/// and `;`, trimmed.
pub open spec fn first_package(t: Seq<NodeView>, src: Seq<u8>, kids: Seq<int>) -> Option<Seq<char>>
    decreases kids.len(),
{
    if kids.len() == 0 {
        None
    } else if t[kids[0]].kind == "package_declaration"@ {
        match field_text(t, src, kids[0], "name"@) {
            Some(n) => Some(n),
            None => Some(trim_spec(replaced(replaced(node_text(src, t[kids[0]]), "package"@, Seq::empty()), ";"@, Seq::empty()))),
        }
    } else {
        first_package(t, src, kids.skip(1))
    }
}

/// The package a parsed Java file declares, if any.
pub open spec fn java_package(t: Seq<NodeView>, src: Seq<u8>) -> Option<Seq<char>> {
    if t.len() == 0 {
        None
    } else {
        first_package(t, src, named_children(t, 0))
    }
}

/// The package a parsed Java file declares, if any.
pub fn extract_package(nodes: &Vec<SyntaxNode>, source: &[u8]) -> (r: Option<String>)
    ensures
        opt_view(r) == java_package(nodes_view(nodes@), source@),
{
    if nodes.len() == 0 {
        return None;
    }
    let ghost tv = nodes_view(nodes@);
    let kids = named_children_of(nodes, 0);
    let ghost ks = named_children(tv, 0);
    let mut k: usize = 0;
    assert(ks.skip(0) =~= ks);
    while k < kids.len()
        invariant
            k <= kids.len(),
            tv == nodes_view(nodes@),
            kids@.len() == ks.len(),
            forall|q: int| 0 <= q < kids@.len() ==> kids@[q] as int == ks[q] && #[trigger] kids@[q] < nodes@.len(),
            first_package(tv, source@, ks.skip(k as int)) == java_package(tv, source@),
        decreases kids.len() - k,
    {
        let j = kids[k];
        assert(ks.skip(k as int)[0] == j as int);
        assert(ks.skip(k as int).skip(1) =~= ks.skip(k + 1));
        assert(tv[j as int] == nodes@[j as int]@);
        if str_eq(nodes[j].kind.as_str(), "package_declaration") {
            match field_text_of(nodes, source, j, "name") {
                Some(n) => {
                    return Some(n);
                },
                None => {
                    let raw = text_of(source, &nodes[j]);
                    proof {
                        reveal_strlit("package");
                        reveal_strlit(";");
                        reveal_strlit("");
                        assert(""@ =~= Seq::<char>::empty());
                    }
                    let a = replace_literal(raw.as_str(), "package", "");
                    let b = replace_literal(a.as_str(), ";", "");
                    return Some(trim_str(b.as_str()));
                },
            }
        }
        k += 1;
    }
    None
}

/// The chunks of a Java source file: parsed with the Java grammar, its
/// imports as dependencies and its package as namespace; none when the
/// source does not parse.
pub fn chunk_java_source(source: &[u8], file_path: &str) -> (r: Vec<CodeChunk>)
    ensures
        match java_syntax_spec(source@) {
            Some(t) => java_chunks_ok(r@, t, source@, file_path@, java_deps(t, source@, t.len() as int), java_package(t, source@)),
            None => r@.len() == 0,
        },
{
    match parse_java(source) {
        Some(nodes) => {
            let deps = extract_dependencies(&nodes, source);
            let ns = extract_package(&nodes, source);
            let ns_ref: Option<&str> = match &ns {
                Some(s) => Some(s.as_str()),
                None => None,
            };
            extract_chunks(&nodes, source, file_path, &deps, ns_ref)
        },
        None => Vec::new(),
    }
}

} // verus!
