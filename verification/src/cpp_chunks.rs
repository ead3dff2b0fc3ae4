//! The C++ chunker: every function, method, constructor, destructor and
//! conversion operator definition becomes a chunk with its name, class,
//! namespace, parameters and return type; every named class and struct
//! becomes a chunk too. Declarators are read as in C.
use vstd::prelude::*;
use crate::syntax::{
    SyntaxNode, NodeView, nodes_view, node_text, field_child, field_text, named_children, last_at_depth,
    text_of, field_child_of, field_text_of, tracks_last, track_node, lemma_last_at_depth_bounds,
};
use crate::rust_chunks::{first_of_kinds, first_of_kinds_of, ancestor_at};
use crate::c_chunks::{
    decl_name, declarator_name, find_params, find_parameters_node, c_params_at, extract_parameters,
    c_return_type, extract_return_type, c_deps, extract_dependencies,
};
use crate::java_chunks::{is_remainder_chunk, has_remainder};
use crate::code_chunk::CodeChunk;
use crate::chunk_types::{CodeChunkKind, CppFields, Parameter, opt_view, params_view};
use crate::chunk_make::{make_cpp_chunk, is_extracted_chunk, id_name};
use crate::spans::Span;
use crate::sql::{make_remainder_chunk, first_index, first_index_exec};
use crate::text::{trim_spec, trim_chars, str_eq, chars_of, string_of, string_of_range, extend_range, occurs_at};
use crate::seqtext::{views, nonempty_only, keep_nonempty, push_string};
use crate::chunk_helpers::{find_from, find_subseq, lemma_find_from_bounds};

verus! {

/// The nodes, in document order, of the tree tree-sitter's C++ grammar
/// parses the source into; `None` when parsing gives no tree.
pub uninterp spec fn cpp_syntax_spec(source: Seq<u8>) -> Option<Seq<NodeView>>;

/// `Parser::parse` with the C++ grammar, the tree walked in document order
/// with a `TreeCursor` (`kind`, `is_named`, `start_byte`, `end_byte`,
/// `field_name`, `depth` of each node). The contract names the result: a
/// function of the source alone.
#[verifier::external_body]
pub(crate) fn parse_cpp(source: &[u8]) -> (r: Option<Vec<SyntaxNode>>)
    ensures
        match r {
            Some(v) => cpp_syntax_spec(source@) == Some(nodes_view(v@)),
            None => cpp_syntax_spec(source@) is None,
        },
{
    let mut parser = tree_sitter::Parser::new();
    parser.set_language(&tree_sitter_cpp::LANGUAGE.into()).ok()?;
    let tree = parser.parse(source, None)?;
    let (mut c, mut out) = (tree.walk(), Vec::new());
    loop {
        let n = c.node();
        out.push(SyntaxNode { kind: n.kind().into(), named: n.is_named(), start: n.start_byte(), end: n.end_byte(), field: c.field_name().map(Into::into), depth: c.depth() as usize });
        if !c.goto_first_child() {
            while !c.goto_next_sibling() {
                if !c.goto_parent() {
                    return Some(out);
                }
            }
        }
    }
}

pub open spec fn is_cpp_function(k: Seq<char>) -> bool {
    ||| k == "function_definition"@
    ||| k == "method_definition"@
    ||| k == "constructor_definition"@
    ||| k == "destructor_definition"@
    ||| k == "operator_cast_definition"@
}

pub open spec fn is_cpp_type(k: Seq<char>) -> bool {
    k == "class_specifier"@ || k == "struct_specifier"@
}

/// Whether a child of node `i` (from node `j` on) is a class or struct.
pub open spec fn type_child_from(t: Seq<NodeView>, i: int, j: int) -> bool
    decreases t.len() - j,
{
    if j < 0 || j >= t.len() || t[j].depth <= t[i].depth {
        false
    } else if t[j].depth == t[i].depth + 1 && is_cpp_type(t[j].kind) {
        true
    } else {
        type_child_from(t, i, j + 1)
    }
}

/// Whether node `i` has a class or struct child (a definition misread
/// around a macro: `class MACRO Name { ... }`).
pub open spec fn has_type_child(t: Seq<NodeView>, i: int) -> bool {
    type_child_from(t, i, i + 1)
}

/// The first child of node `i` (from node `j` on) that is an identifier.
pub open spec fn identifier_child_from(t: Seq<NodeView>, i: int, j: int) -> Option<int>
    decreases t.len() - j,
{
    if j < 0 || j >= t.len() || t[j].depth <= t[i].depth {
        None
    } else if t[j].depth == t[i].depth + 1 && t[j].kind == "identifier"@ {
        Some(j)
    } else {
        identifier_child_from(t, i, j + 1)
    }
}

pub open spec fn identifier_child_text(t: Seq<NodeView>, src: Seq<u8>, i: int) -> Option<Seq<char>> {
    match identifier_child_from(t, i, i + 1) {
        Some(c) => Some(node_text(src, t[c])),
        None => None,
    }
}

/// The class name an ancestor gives: a class or struct's name (its `name`
/// child, else its first type identifier or identifier), or the identifier
/// of a definition misread around a macro.
pub open spec fn class_name_at(t: Seq<NodeView>, src: Seq<u8>, a: int) -> Option<Seq<char>> {
    if is_cpp_type(t[a].kind) {
        match field_text(t, src, a, "name"@) {
            Some(x) => Some(x),
            None => match first_of_kinds(t, src, named_children(t, a), "type_identifier"@, "identifier"@) {
                Some(x) => Some(x),
                None => misread_class_name(t, src, a),
            },
        }
    } else {
        misread_class_name(t, src, a)
    }
}

pub open spec fn misread_class_name(t: Seq<NodeView>, src: Seq<u8>, a: int) -> Option<Seq<char>> {
    if t[a].kind == "function_definition"@ && has_type_child(t, a) {
        identifier_child_text(t, src, a)
    } else {
        None
    }
}

/// The nearest ancestor of node `i` (looking from depth `k` up) that gives
/// a class name.
pub open spec fn enclosing_class(t: Seq<NodeView>, src: Seq<u8>, i: int, k: int) -> Option<Seq<char>>
    decreases k + 1,
{
    if k < 0 {
        None
    } else {
        match last_at_depth(t, k, i) {
            Some(a) => match class_name_at(t, src, a) {
                Some(x) => Some(x),
                None => enclosing_class(t, src, i, k - 1),
            },
            None => enclosing_class(t, src, i, k - 1),
        }
    }
}

/// The name a namespace ancestor gives: its `name` child, else its first
/// namespace identifier or identifier.
pub open spec fn namespace_name_at(t: Seq<NodeView>, src: Seq<u8>, a: int) -> Option<Seq<char>> {
    if t[a].kind == "namespace_definition"@ {
        match field_text(t, src, a, "name"@) {
            Some(x) => Some(x),
            None => first_of_kinds(t, src, named_children(t, a), "namespace_identifier"@, "identifier"@),
        }
    } else {
        None
    }
}

/// The nearest namespace around node `i` (looking from depth `k` up).
pub open spec fn enclosing_namespace(t: Seq<NodeView>, src: Seq<u8>, i: int, k: int) -> Option<Seq<char>>
    decreases k + 1,
{
    if k < 0 {
        None
    } else {
        match last_at_depth(t, k, i) {
            Some(a) => match namespace_name_at(t, src, a) {
                Some(x) => Some(x),
                None => enclosing_namespace(t, src, i, k - 1),
            },
            None => enclosing_namespace(t, src, i, k - 1),
        }
    }
}

// ---------------------------------------------------------------------------
// Qualified names
// ---------------------------------------------------------------------------

/// The pieces of `s` from index `i` on between `::` separators.
pub open spec fn scope_pieces_from(s: Seq<char>, i: int) -> Seq<Seq<char>>
    decreases s.len() - i,
{
    if i < 0 || i > s.len() {
        Seq::empty()
    } else {
        match find_from(s, "::"@, i) {
            Some(k) => {
                proof {
                    reveal_strlit("::");
                    lemma_find_from_bounds(s, "::"@, i);
                }
                seq![s.subrange(i, k)] + scope_pieces_from(s, k + 2)
            },
            None => seq![s.skip(i)],
        }
    }
}

/// A qualified name read from a declarator's text (before its first `(`,
/// trimmed): the last `::` piece as the function and the one before it as
/// the class; an unqualified name is the function alone.
pub open spec fn qualified_name_text(text: Seq<char>) -> (Option<Seq<char>>, Option<Seq<char>>) {
    let head = trim_spec(text.take(first_index(text, '(', 0)));
    if head.len() == 0 {
        (None, None)
    } else if find_from(head, "::"@, 0) is None {
        (Some(head), None)
    } else {
        let parts = nonempty_only(scope_pieces_from(head, 0));
        if parts.len() == 0 {
            (None, None)
        } else {
            (Some(parts.last()), if parts.len() > 1 {
                Some(parts[parts.len() - 2])
            } else {
                None
            })
        }
    }
}

proof fn lemma_first_index_range(s: Seq<char>, c: char, i: int)
    requires
        0 <= i <= s.len(),
    ensures
        i <= first_index(s, c, i) <= s.len(),
    decreases s.len() - i,
{
    if i < s.len() && s[i] != c {
        lemma_first_index_range(s, c, i + 1);
    }
}

fn scope_separator() -> (r: Vec<char>)
    ensures
        r@ == "::"@,
{
    proof {
        reveal_strlit("::");
    }
    let mut r: Vec<char> = Vec::new();
    r.push(':');
    r.push(':');
    assert(r@ =~= "::"@);
    r
}

/// The function name and class a qualified declarator text names (see
/// `qualified_name_text`).
pub fn parse_qualified_name(text: &str) -> (r: (Option<String>, Option<String>))
    ensures
        (opt_view(r.0), opt_view(r.1)) == qualified_name_text(text@),
{
    let v = chars_of(text);
    let k = first_index_exec(&v, '(');
    proof {
        lemma_first_index_range(v@, '(', 0);
    }
    let mut before: Vec<char> = Vec::new();
    extend_range(&mut before, &v, 0, k);
    assert(before@ =~= v@.take(k as int));
    let head = trim_chars(&before);
    if head.len() == 0 {
        return (None, None);
    }
    let sep = scope_separator();
    if find_subseq(&head, &sep, 0).is_none() {
        return (Some(string_of(&head)), None);
    }
    proof {
        reveal_strlit("::");
    }
    let mut pieces: Vec<String> = Vec::new();
    let mut i: usize = 0;
    let n = head.len();
    assert(views(pieces@) + scope_pieces_from(head@, 0) =~= scope_pieces_from(head@, 0));
    loop
        invariant_except_break
            i <= head@.len(),
            n == head@.len(),
            sep@ == "::"@,
            sep@.len() == 2,
            views(pieces@) + scope_pieces_from(head@, i as int) == scope_pieces_from(head@, 0),
        ensures
            views(pieces@) == scope_pieces_from(head@, 0),
        decreases head@.len() - i,
    {
        match find_subseq(&head, &sep, i) {
            Some(k) => {
                proof {
                    lemma_find_from_bounds(head@, "::"@, i as int);
                    assert(occurs_at(head@, sep@, k as int));
                }
                let piece = string_of_range(&head, i, k);
                let ghost before_pieces = views(pieces@);
                push_string(&mut pieces, piece);
                assert(views(pieces@) =~= before_pieces.push(head@.subrange(i as int, k as int)));
                assert(scope_pieces_from(head@, i as int) == seq![head@.subrange(i as int, k as int)] + scope_pieces_from(head@, k + 2));
                assert(views(pieces@) + scope_pieces_from(head@, k + 2) =~= before_pieces + scope_pieces_from(head@, i as int));
                i = k + 2;
            },
            None => {
                let piece = string_of_range(&head, i, n);
                let ghost before_pieces = views(pieces@);
                push_string(&mut pieces, piece);
                assert(views(pieces@) =~= before_pieces.push(head@.skip(i as int)));
                assert(scope_pieces_from(head@, i as int) == seq![head@.skip(i as int)]);
                assert(views(pieces@) =~= before_pieces + scope_pieces_from(head@, i as int));
                break;
            },
        }
    }
    let parts = keep_nonempty(&pieces);
    let m = parts.len();
    assert(find_from(head@, "::"@, 0) is Some);
    assert(views(parts@) == nonempty_only(scope_pieces_from(head@, 0)));
    proof {
        if m > 0 {
            assert(views(parts@).last() == parts@[m - 1]@);
        }
        if m > 1 {
            assert(views(parts@)[m - 2] == parts@[m - 2]@);
        }
    }
    if m == 0 {
        (None, None)
    } else if m > 1 {
        (Some(parts[m - 1].clone()), Some(parts[m - 2].clone()))
    } else {
        (Some(parts[m - 1].clone()), None)
    }
}

// ---------------------------------------------------------------------------
// Chunks
// ---------------------------------------------------------------------------

/// A definition's function name and qualifying class: from its
/// declarator's text, the name falling back to the declared name.
pub open spec fn cpp_function_name(t: Seq<NodeView>, src: Seq<u8>, i: int) -> Option<Seq<char>> {
    match field_child(t, i, "declarator"@) {
        Some(dc) => match qualified_name_text(node_text(src, t[dc])).0 {
            Some(x) => Some(x),
            None => decl_name(t, src, dc),
        },
        None => None,
    }
}

pub open spec fn cpp_qualifying_class(t: Seq<NodeView>, src: Seq<u8>, i: int) -> Option<Seq<char>> {
    match field_child(t, i, "declarator"@) {
        Some(dc) => qualified_name_text(node_text(src, t[dc])).1,
        None => None,
    }
}

pub open spec fn cpp_function_params(t: Seq<NodeView>, src: Seq<u8>, i: int) -> Seq<(Seq<char>, Seq<char>)> {
    match field_child(t, i, "declarator"@) {
        Some(dc) => c_params_at(t, src, find_params(t, dc)),
        None => Seq::empty(),
    }
}

/// The parent of node `i` (its ancestor one level up).
pub open spec fn parent_of(t: Seq<NodeView>, i: int) -> Option<int> {
    last_at_depth(t, t[i].depth - 1, i)
}

/// The class or struct `i` misread inside a definition around a macro:
/// the definition's identifier child, when it has one.
pub open spec fn misread_type_name(t: Seq<NodeView>, src: Seq<u8>, i: int) -> Option<(int, Seq<char>)> {
    match parent_of(t, i) {
        Some(p) => if t[p].kind == "function_definition"@ {
            match identifier_child_from(t, p, p + 1) {
                Some(c) => Some((p, node_text(src, t[c]))),
                None => None,
            }
        } else {
            None
        },
        None => None,
    }
}

/// Whether node `i` becomes a chunk: a definition without a class or
/// struct child, or a class or struct misread inside a definition, or one
/// with a non-empty name.
pub open spec fn is_cpp_chunk_node(t: Seq<NodeView>, src: Seq<u8>, i: int) -> bool {
    if is_cpp_function(t[i].kind) {
        !has_type_child(t, i)
    } else if is_cpp_type(t[i].kind) {
        misread_type_name(t, src, i) is Some || match field_text(t, src, i, "name"@) {
            Some(x) => x.len() > 0,
            None => false,
        }
    } else {
        false
    }
}

/// Whether node `i`'s chunk takes its text out of the remainder (only
/// definitions do).
pub open spec fn is_cpp_span_node(t: Seq<NodeView>, src: Seq<u8>, i: int) -> bool {
    is_cpp_function(t[i].kind) && !has_type_child(t, i)
}

/// The chunk of node `i`: for a definition, its name, class (the enclosing
/// class, else the qualifying one), parameters and return type (none for
/// constructors and destructors); for a type, its name; the nearest
/// namespace; the node's text as code (the definition's text for a misread
/// type) and its kind as chunk type.
pub open spec fn is_cpp_node_chunk(c: CodeChunk, t: Seq<NodeView>, src: Seq<u8>, i: int, file_path: Seq<char>, deps: Seq<Seq<char>>) -> bool {
    let ns = enclosing_namespace(t, src, i, t[i].depth - 1);
    if is_cpp_function(t[i].kind) {
        let fname = cpp_function_name(t, src, i);
        let cname = match enclosing_class(t, src, i, t[i].depth - 1) {
            Some(x) => Some(x),
            None => cpp_qualifying_class(t, src, i),
        };
        &&& is_extracted_chunk(c, file_path, id_name(seq![fname, cname]), node_text(src, t[i]), t[i].kind, deps)
        &&& c.kind matches CodeChunkKind::Cpp(f) && {
            &&& opt_view(f.function_name) == fname
            &&& opt_view(f.class_name) == cname
            &&& params_view(f.parameters@) == cpp_function_params(t, src, i)
            &&& opt_view(f.return_type) == if t[i].kind == "constructor_definition"@ || t[i].kind == "destructor_definition"@ {
                None
            } else {
                c_return_type(t, src, i)
            }
            &&& opt_view(f.namespace) == ns
        }
    } else {
        let (cname, code) = match misread_type_name(t, src, i) {
            Some((p, name)) => (Some(name), node_text(src, t[p])),
            None => (field_text(t, src, i, "name"@), node_text(src, t[i])),
        };
        &&& is_extracted_chunk(c, file_path, id_name(seq![None, cname]), code, t[i].kind, deps)
        &&& c.kind matches CodeChunkKind::Cpp(f) && {
            &&& f.function_name is None
            &&& opt_view(f.class_name) == cname
            &&& f.parameters@.len() == 0
            &&& f.return_type is None
            &&& opt_view(f.namespace) == ns
        }
    }
}

/// The nodes among the first `n` that become chunks, in document order.
pub open spec fn cpp_chunk_nodes(t: Seq<NodeView>, src: Seq<u8>, n: int) -> Seq<int>
    decreases n,
{
    if n <= 0 {
        Seq::empty()
    } else if is_cpp_chunk_node(t, src, n - 1) {
        cpp_chunk_nodes(t, src, n - 1).push(n - 1)
    } else {
        cpp_chunk_nodes(t, src, n - 1)
    }
}

/// The byte ranges of the definitions among the first `n` nodes that
/// become chunks.
pub open spec fn cpp_spans(t: Seq<NodeView>, src: Seq<u8>, n: int) -> Seq<Span>
    decreases n,
{
    if n <= 0 {
        Seq::empty()
    } else if is_cpp_span_node(t, src, n - 1) {
        cpp_spans(t, src, n - 1).push((t[n - 1].start, t[n - 1].end))
    } else {
        cpp_spans(t, src, n - 1)
    }
}

/// `r` holds the chunks of a parsed C++ file in document order, then the
/// remainder chunk when the definitions leave any text.
pub open spec fn cpp_chunks_ok(r: Seq<CodeChunk>, t: Seq<NodeView>, src: Seq<u8>, file_path: Seq<char>, deps: Seq<Seq<char>>) -> bool {
    let idx = cpp_chunk_nodes(t, src, t.len() as int);
    let spans = cpp_spans(t, src, t.len() as int);
    &&& r.len() == idx.len() + if has_remainder(src, spans) { 1int } else { 0int }
    &&& forall|k: int| 0 <= k < idx.len() ==> is_cpp_node_chunk(#[trigger] r[k], t, src, idx[k], file_path, deps)
    &&& has_remainder(src, spans) ==> is_remainder_chunk(r[idx.len() as int], src, spans, file_path, deps)
}

fn is_cpp_function_exec(k: &str) -> (r: bool)
    ensures
        r == is_cpp_function(k@),
{
    str_eq(k, "function_definition") || str_eq(k, "method_definition") || str_eq(k, "constructor_definition")
        || str_eq(k, "destructor_definition") || str_eq(k, "operator_cast_definition")
}

fn is_cpp_type_exec(k: &str) -> (r: bool)
    ensures
        r == is_cpp_type(k@),
{
    str_eq(k, "class_specifier") || str_eq(k, "struct_specifier")
}

fn has_type_child_of(t: &Vec<SyntaxNode>, i: usize) -> (r: bool)
    requires
        i < t@.len(),
    ensures
        r == has_type_child(nodes_view(t@), i as int),
{
    let ghost tv = nodes_view(t@);
    assert(tv[i as int] == t@[i as int]@);
    let d = t[i].depth;
    let n = t.len();
    let mut j = i + 1;
    while j < t.len() && t[j].depth > d
        invariant
            i < j <= t@.len(),
            tv == nodes_view(t@),
            d == tv[i as int].depth,
            type_child_from(tv, i as int, j as int) == has_type_child(tv, i as int),
        decreases t.len() - j,
    {
        assert(tv[j as int] == t@[j as int]@);
        if t[j].depth == d + 1 && is_cpp_type_exec(t[j].kind.as_str()) {
            return true;
        }
        j += 1;
    }
    proof {
        if j < t@.len() {
            assert(tv[j as int] == t@[j as int]@);
        }
    }
    false
}

fn identifier_child_of(t: &Vec<SyntaxNode>, i: usize) -> (r: Option<usize>)
    requires
        i < t@.len(),
    ensures
        match r {
            Some(c) => identifier_child_from(nodes_view(t@), i as int, i + 1) == Some(c as int) && c < t@.len(),
            None => identifier_child_from(nodes_view(t@), i as int, i + 1) is None,
        },
{
    let ghost tv = nodes_view(t@);
    assert(tv[i as int] == t@[i as int]@);
    let d = t[i].depth;
    let n = t.len();
    let mut j = i + 1;
    while j < t.len() && t[j].depth > d
        invariant
            i < j <= t@.len(),
            tv == nodes_view(t@),
            d == tv[i as int].depth,
            identifier_child_from(tv, i as int, j as int) == identifier_child_from(tv, i as int, i + 1),
        decreases t.len() - j,
    {
        assert(tv[j as int] == t@[j as int]@);
        if t[j].depth == d + 1 && str_eq(t[j].kind.as_str(), "identifier") {
            return Some(j);
        }
        j += 1;
    }
    proof {
        if j < t@.len() {
            assert(tv[j as int] == t@[j as int]@);
        }
    }
    None
}

fn identifier_child_text_of(t: &Vec<SyntaxNode>, src: &[u8], i: usize) -> (r: Option<String>)
    requires
        i < t@.len(),
    ensures
        opt_view(r) == identifier_child_text(nodes_view(t@), src@, i as int),
{
    match identifier_child_of(t, i) {
        Some(c) => {
            assert(nodes_view(t@)[c as int] == t@[c as int]@);
            Some(text_of(src, &t[c]))
        },
        None => None,
    }
}

fn misread_class_name_of(t: &Vec<SyntaxNode>, src: &[u8], a: usize) -> (r: Option<String>)
    requires
        a < t@.len(),
    ensures
        opt_view(r) == misread_class_name(nodes_view(t@), src@, a as int),
{
    assert(nodes_view(t@)[a as int] == t@[a as int]@);
    if str_eq(t[a].kind.as_str(), "function_definition") && has_type_child_of(t, a) {
        identifier_child_text_of(t, src, a)
    } else {
        None
    }
}

fn class_name_at_of(t: &Vec<SyntaxNode>, src: &[u8], a: usize) -> (r: Option<String>)
    requires
        a < t@.len(),
    ensures
        opt_view(r) == class_name_at(nodes_view(t@), src@, a as int),
{
    assert(nodes_view(t@)[a as int] == t@[a as int]@);
    if is_cpp_type_exec(t[a].kind.as_str()) {
        match field_text_of(t, src, a, "name") {
            Some(x) => Some(x),
            None => match first_of_kinds_of(t, src, a, "type_identifier", "identifier") {
                Some(x) => Some(x),
                None => misread_class_name_of(t, src, a),
            },
        }
    } else {
        misread_class_name_of(t, src, a)
    }
}

fn namespace_name_at_of(t: &Vec<SyntaxNode>, src: &[u8], a: usize) -> (r: Option<String>)
    requires
        a < t@.len(),
    ensures
        opt_view(r) == namespace_name_at(nodes_view(t@), src@, a as int),
{
    assert(nodes_view(t@)[a as int] == t@[a as int]@);
    if str_eq(t[a].kind.as_str(), "namespace_definition") {
        match field_text_of(t, src, a, "name") {
            Some(x) => Some(x),
            None => first_of_kinds_of(t, src, a, "namespace_identifier", "identifier"),
        }
    } else {
        None
    }
}

fn enclosing_class_of(t: &Vec<SyntaxNode>, src: &[u8], last: &Vec<Option<usize>>, i: usize) -> (r: Option<String>)
    requires
        i < t@.len(),
        tracks_last(nodes_view(t@), last@, i as int),
    ensures
        opt_view(r) == enclosing_class(nodes_view(t@), src@, i as int, t@[i as int].depth - 1),
{
    let ghost tv = nodes_view(t@);
    assert(tv[i as int] == t@[i as int]@);
    let mut k = t[i].depth;
    while k > 0
        invariant
            k <= t@[i as int].depth,
            tv == nodes_view(t@),
            i < t@.len(),
            tracks_last(tv, last@, i as int),
            enclosing_class(tv, src@, i as int, k - 1) == enclosing_class(tv, src@, i as int, t@[i as int].depth - 1),
        decreases k,
    {
        match ancestor_at(t, last, i, k - 1) {
            Some(a) => {
                let name = class_name_at_of(t, src, a);
                if name.is_some() {
                    return name;
                }
            },
            None => {},
        }
        k -= 1;
    }
    None
}

fn enclosing_namespace_of(t: &Vec<SyntaxNode>, src: &[u8], last: &Vec<Option<usize>>, i: usize) -> (r: Option<String>)
    requires
        i < t@.len(),
        tracks_last(nodes_view(t@), last@, i as int),
    ensures
        opt_view(r) == enclosing_namespace(nodes_view(t@), src@, i as int, t@[i as int].depth - 1),
{
    let ghost tv = nodes_view(t@);
    assert(tv[i as int] == t@[i as int]@);
    let mut k = t[i].depth;
    while k > 0
        invariant
            k <= t@[i as int].depth,
            tv == nodes_view(t@),
            i < t@.len(),
            tracks_last(tv, last@, i as int),
            enclosing_namespace(tv, src@, i as int, k - 1) == enclosing_namespace(tv, src@, i as int, t@[i as int].depth - 1),
        decreases k,
    {
        match ancestor_at(t, last, i, k - 1) {
            Some(a) => {
                let name = namespace_name_at_of(t, src, a);
                if name.is_some() {
                    return name;
                }
            },
            None => {},
        }
        k -= 1;
    }
    None
}

fn misread_type_name_of(t: &Vec<SyntaxNode>, src: &[u8], last: &Vec<Option<usize>>, i: usize) -> (r: Option<(usize, String)>)
    requires
        i < t@.len(),
        tracks_last(nodes_view(t@), last@, i as int),
    ensures
        match r {
            Some((p, name)) => misread_type_name(nodes_view(t@), src@, i as int) == Some((p as int, name@)) && p < t@.len(),
            None => misread_type_name(nodes_view(t@), src@, i as int) is None,
        },
{
    let ghost tv = nodes_view(t@);
    assert(tv[i as int] == t@[i as int]@);
    let d = t[i].depth;
    if d == 0 {
        proof {
            lemma_last_at_depth_bounds(tv, -1, i as int);
        }
        return None;
    }
    match ancestor_at(t, last, i, d - 1) {
        Some(p) => {
            assert(tv[p as int] == t@[p as int]@);
            if str_eq(t[p].kind.as_str(), "function_definition") {
                match identifier_child_of(t, p) {
                    Some(c) => {
                        assert(tv[c as int] == t@[c as int]@);
                        Some((p, text_of(src, &t[c])))
                    },
                    None => None,
                }
            } else {
                None
            }
        },
        None => None,
    }
}

/// A definition's function name (see `cpp_function_name`) and the class its
/// declarator qualifies it with.
fn cpp_names_of(t: &Vec<SyntaxNode>, src: &[u8], i: usize) -> (r: (Option<String>, Option<String>))
    requires
        i < t@.len(),
    ensures
        opt_view(r.0) == cpp_function_name(nodes_view(t@), src@, i as int),
        opt_view(r.1) == cpp_qualifying_class(nodes_view(t@), src@, i as int),
{
    match field_child_of(t, i, "declarator") {
        Some(dc) => {
            assert(nodes_view(t@)[dc as int] == t@[dc as int]@);
            let (f, q) = parse_qualified_name(text_of(src, &t[dc]).as_str());
            match f {
                Some(x) => (Some(x), q),
                None => (declarator_name(t, src, dc), q),
            }
        },
        None => (None, None),
    }
}

fn cpp_function_params_of(t: &Vec<SyntaxNode>, src: &[u8], i: usize) -> (r: Vec<Parameter>)
    requires
        i < t@.len(),
    ensures
        params_view(r@) == cpp_function_params(nodes_view(t@), src@, i as int),
{
    match field_child_of(t, i, "declarator") {
        Some(dc) => extract_parameters(t, src, find_parameters_node(t, dc)),
        None => {
            let r: Vec<Parameter> = Vec::new();
            assert(params_view(r@) =~= Seq::<(Seq<char>, Seq<char>)>::empty());
            r
        },
    }
}

/// The chunks of a parsed C++ file in document order, then the remainder
/// chunk when the definitions leave any text.
pub fn extract_chunks(nodes: &Vec<SyntaxNode>, source: &[u8], file_path: &str, deps: &Vec<String>) -> (r: Vec<CodeChunk>)
    ensures
        cpp_chunks_ok(r@, nodes_view(nodes@), source@, file_path@, views(deps@)),
{
    let ghost tv = nodes_view(nodes@);
    let mut chunks: Vec<CodeChunk> = Vec::new();
    let mut spans: Vec<Span> = Vec::new();
    let mut last: Vec<Option<usize>> = Vec::new();
    let mut i: usize = 0;
    while i < nodes.len()
        invariant
            i <= nodes@.len(),
            tv == nodes_view(nodes@),
            tracks_last(tv, last@, i as int),
            spans@ == cpp_spans(tv, source@, i as int),
            chunks@.len() == cpp_chunk_nodes(tv, source@, i as int).len(),
            forall|k: int| 0 <= k < chunks@.len() ==> is_cpp_node_chunk(#[trigger] chunks@[k], tv, source@, cpp_chunk_nodes(tv, source@, i as int)[k], file_path@, views(deps@)),
        decreases nodes.len() - i,
    {
        let node = &nodes[i];
        assert(tv[i as int] == nodes@[i as int]@);
        let kind = node.kind.as_str();
        let ghost prev = chunks@;
        let ghost prev_idx = cpp_chunk_nodes(tv, source@, i as int);
        let mut made: Option<CodeChunk> = None;
        if is_cpp_function_exec(kind) {
            if !has_type_child_of(nodes, i) {
                let (function_name, qualified_class) = cpp_names_of(nodes, source, i);
                let parameters = cpp_function_params_of(nodes, source, i);
                let return_type = if str_eq(kind, "constructor_definition") || str_eq(kind, "destructor_definition") {
                    None
                } else {
                    extract_return_type(nodes, source, i)
                };
                let class_name = match enclosing_class_of(nodes, source, &last, i) {
                    Some(x) => Some(x),
                    None => qualified_class,
                };
                let namespace = enclosing_namespace_of(nodes, source, &last, i);
                let code = text_of(source, node);
                let c = make_cpp_chunk(file_path, function_name, class_name, parameters, return_type, namespace, code, kind, deps);
                assert(is_cpp_node_chunk(c, tv, source@, i as int, file_path@, views(deps@)));
                made = Some(c);
                spans.push((node.start, node.end));
            }
        } else if is_cpp_type_exec(kind) {
            match misread_type_name_of(nodes, source, &last, i) {
                Some((p, name)) => {
                    assert(tv[p as int] == nodes@[p as int]@);
                    let namespace = enclosing_namespace_of(nodes, source, &last, i);
                    let code = text_of(source, &nodes[p]);
                    let c = make_cpp_chunk(file_path, None, Some(name), Vec::new(), None, namespace, code, kind, deps);
                    assert(is_cpp_node_chunk(c, tv, source@, i as int, file_path@, views(deps@)));
                    made = Some(c);
                },
                None => {
                    match field_text_of(nodes, source, i, "name") {
                        Some(decl) => {
                            if !decl.as_str().is_empty() {
                                let namespace = enclosing_namespace_of(nodes, source, &last, i);
                                let code = text_of(source, node);
                                let c = make_cpp_chunk(file_path, None, Some(decl), Vec::new(), None, namespace, code, kind, deps);
                                assert(is_cpp_node_chunk(c, tv, source@, i as int, file_path@, views(deps@)));
                                made = Some(c);
                            }
                        },
                        None => {},
                    }
                },
            }
        }
        match made {
            Some(c) => {
                assert(is_cpp_chunk_node(tv, source@, i as int));
                chunks.push(c);
                assert(cpp_chunk_nodes(tv, source@, i + 1) == prev_idx.push(i as int));
                assert forall|k: int| 0 <= k < chunks@.len() implies is_cpp_node_chunk(#[trigger] chunks@[k], tv, source@, cpp_chunk_nodes(tv, source@, i + 1)[k], file_path@, views(deps@)) by {
                    if k < prev.len() {
                        assert(chunks@[k] == prev[k]);
                    }
                }
            },
            None => {
                assert(!is_cpp_chunk_node(tv, source@, i as int));
                assert(cpp_chunk_nodes(tv, source@, i + 1) == prev_idx);
            },
        }
        track_node(nodes, &mut last, i);
        i += 1;
    }
    match make_remainder_chunk(source, spans.as_slice(), file_path, deps) {
        Some(rc) => {
            chunks.push(rc);
        },
        None => {},
    }
    chunks
}

/// The chunks of a C++ source file, with its included headers as
/// dependencies; none when the source does not parse.
pub fn chunk_cpp_source(source: &[u8], file_path: &str) -> (r: Vec<CodeChunk>)
    ensures
        match cpp_syntax_spec(source@) {
            Some(t) => cpp_chunks_ok(r@, t, source@, file_path@, c_deps(t, source@, t.len() as int)),
            None => r@.len() == 0,
        },
{
    match parse_cpp(source) {
        Some(nodes) => {
            let deps = extract_dependencies(&nodes, source);
            extract_chunks(&nodes, source, file_path, &deps)
        },
        None => Vec::new(),
    }
}

/// The headers a C++ source file includes; none when it does not parse.
pub fn cpp_source_dependencies(source: &[u8]) -> (r: Vec<String>)
    ensures
        match cpp_syntax_spec(source@) {
            Some(t) => views(r@) == c_deps(t, source@, t.len() as int),
            None => r@.len() == 0,
        },
{
    match parse_cpp(source) {
        Some(nodes) => extract_dependencies(&nodes, source),
        None => Vec::new(),
    }
}

} // verus!
