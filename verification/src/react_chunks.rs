//! The React (TSX/JSX) chunker: function components (capitalised functions
//! that render JSX), hooks (`use…` functions), class components (classes
//! extending a `Component`) and components bound to constants become
//! chunks with their props, the hooks they call and whether they are
//! exported; the functions declared inside a component's body become
//! chunks of their own under that component. What the components leave of
//! the file becomes the remainder chunk.
use vstd::prelude::*;
use crate::syntax::{
    SyntaxNode, NodeView, nodes_view, node_text, field_child, field_text, named_children, last_at_depth,
    text_of, field_child_of, field_text_of, named_children_of, tracks_last, track_node,
    lemma_last_at_depth_bounds,
};
use crate::rust_chunks::ancestor_at;
use crate::c_chunks::skipped;
use crate::sql_tree::{kind_children, kind_children_of};
use crate::js_chunks::{removal_span, js_deps, parent_of, count_children_from, count_children};
use crate::java_chunks::{is_remainder_chunk, has_remainder, contains_string};
use crate::code_chunk::CodeChunk;
use crate::chunk_types::{CodeChunkKind, ReactFields, Parameter, opt_view, params_view};
use crate::chunk_make::{create_react_chunk, is_extracted_chunk, id_name};
use crate::spans::Span;
use crate::sql::make_remainder_chunk;
use crate::text::{contains_spec, ends_with_spec, starts_with_spec, str_eq, contains_str, ends_with_str, starts_with_str, chars_of};
use crate::seqtext::{views, push_string};
use crate::python_chunks::{ints, all_of_kind_of};

verus! {

/// The nodes, in document order, of the tree tree-sitter's TSX grammar
/// parses the source into; `None` when parsing gives no tree.
pub uninterp spec fn tsx_syntax_spec(source: Seq<u8>) -> Option<Seq<NodeView>>;

/// `Parser::parse` with the TSX grammar of tree-sitter-typescript, the tree
/// walked in document order with a `TreeCursor` (`kind`, `is_named`,
/// `start_byte`, `end_byte`, `field_name`, `depth` of each node). The
/// contract names the result: a function of the source alone.
#[verifier::external_body]
pub(crate) fn parse_tsx(source: &[u8]) -> (r: Option<Vec<SyntaxNode>>)
    ensures
        match r {
            Some(v) => tsx_syntax_spec(source@) == Some(nodes_view(v@)),
            None => tsx_syntax_spec(source@) is None,
        },
{
    let mut parser = tree_sitter::Parser::new();
    parser.set_language(&tree_sitter_typescript::LANGUAGE_TSX.into()).ok()?;
    let tree = parser.parse(source, None)?;
    let (mut c, mut out) = (tree.walk(), Vec::new());
    loop {
        let n = c.node();
        out.push(SyntaxNode { kind: n.kind().into(), named: n.is_named(), start: n.start_byte(), end: n.end_byte(), field: c.field_name().map(Into::into), depth: c.depth() as usize });
        if !c.goto_first_child() {
            while !c.goto_next_sibling() {
                if !c.goto_parent() {
                    return Some(out);
                }
            }
        }
    }
}

/// What `char::is_uppercase` returns for a character.
pub uninterp spec fn uppercase_spec(c: char) -> bool;

/// What `char::is_lowercase` returns for a character.
pub uninterp spec fn lowercase_spec(c: char) -> bool;

/// `char::is_uppercase` (the Unicode `Uppercase` property). The contract
/// names the result; it is a function of the character alone.
#[verifier::external_body]
fn is_uppercase(c: char) -> (r: bool)
    ensures
        r == uppercase_spec(c),
{
    c.is_uppercase()
}

/// `char::is_lowercase` (the Unicode `Lowercase` property). The contract
/// names the result; it is a function of the character alone.
#[verifier::external_body]
fn is_lowercase(c: char) -> (r: bool)
    ensures
        r == lowercase_spec(c),
{
    c.is_lowercase()
}

/// A name's first character (a space for an empty name).
pub open spec fn first_char(name: Seq<char>) -> char {
    if name.len() > 0 {
        name[0]
    } else {
        ' '
    }
}

/// A component's name: its first character is upper case.
pub open spec fn is_component_name(name: Seq<char>) -> bool {
    uppercase_spec(first_char(name))
}

/// A hook's name: it starts with `use` and its first character is lower
/// case.
pub open spec fn is_hook_name(name: Seq<char>) -> bool {
    starts_with_spec(name, "use"@) && lowercase_spec(first_char(name))
}

pub open spec fn is_jsx_kind(k: Seq<char>) -> bool {
    k == "jsx_element"@ || k == "jsx_self_closing_element"@ || k == "jsx_fragment"@
}

/// Whether a descendant of a node at depth `d`, from node `j` on, is JSX.
pub open spec fn jsx_from(t: Seq<NodeView>, d: usize, j: int) -> bool
    decreases t.len() - j,
{
    if j < 0 || j >= t.len() || t[j].depth <= d {
        false
    } else if is_jsx_kind(t[j].kind) {
        true
    } else {
        jsx_from(t, d, j + 1)
    }
}

/// Whether node `i` is or holds JSX.
pub open spec fn contains_jsx(t: Seq<NodeView>, i: int) -> bool {
    is_jsx_kind(t[i].kind) || jsx_from(t, t[i].depth, i + 1)
}

/// Whether node `i` is directly exported (its parent is an `export`
/// statement).
pub open spec fn is_exported(t: Seq<NodeView>, i: int) -> bool {
    match parent_of(t, i) {
        Some(p) => t[p].kind == "export_statement"@,
        None => false,
    }
}

/// Whether the declaration holding declarator `y` is exported.
pub open spec fn declaration_exported(t: Seq<NodeView>, y: int) -> bool {
    match parent_of(t, y) {
        Some(p) => match last_at_depth(t, t[y].depth - 2, y) {
            Some(g) => t[g].kind == "export_statement"@,
            None => false,
        },
        None => false,
    }
}

// ---------------------------------------------------------------------------
// Props and hooks
// ---------------------------------------------------------------------------

/// The props of an object pattern's named children from index `q` on: each
/// property identifier, typed by a type annotation right after it.
pub open spec fn pattern_props(t: Seq<NodeView>, src: Seq<u8>, kids: Seq<int>, q: int) -> Seq<(Seq<char>, Seq<char>)>
    decreases kids.len() - q,
{
    if q < 0 || q >= kids.len() {
        Seq::empty()
    } else if t[kids[q]].kind == "property_identifier"@ {
        let ty = if q + 1 < kids.len() && t[kids[q + 1]].kind == "type_annotation"@ {
            node_text(src, t[kids[q + 1]])
        } else {
            Seq::empty()
        };
        seq![(node_text(src, t[kids[q]]), ty)] + pattern_props(t, src, kids, q + 1)
    } else {
        pattern_props(t, src, kids, q + 1)
    }
}

/// The props a parameter gives: a required or optional parameter's
/// pattern (or name) with its type; an object pattern's properties.
pub open spec fn param_props(t: Seq<NodeView>, src: Seq<u8>, j: int) -> Seq<(Seq<char>, Seq<char>)> {
    if t[j].kind == "required_parameter"@ || t[j].kind == "optional_parameter"@ {
        let name_node = match field_child(t, j, "pattern"@) {
            Some(n) => Some(n),
            None => field_child(t, j, "name"@),
        };
        match name_node {
            Some(n) => seq![(node_text(src, t[n]), match field_text(t, src, j, "type"@) {
                Some(ty) => ty,
                None => Seq::empty(),
            })],
            None => Seq::empty(),
        }
    } else if t[j].kind == "object_pattern"@ {
        pattern_props(t, src, named_children(t, j), 0)
    } else {
        Seq::empty()
    }
}

pub open spec fn props_in(t: Seq<NodeView>, src: Seq<u8>, kids: Seq<int>) -> Seq<(Seq<char>, Seq<char>)>
    decreases kids.len(),
{
    if kids.len() == 0 {
        Seq::empty()
    } else {
        props_in(t, src, kids.drop_last()) + param_props(t, src, kids.last())
    }
}

/// The props of function node `f`'s parameter list.
pub open spec fn fn_props(t: Seq<NodeView>, src: Seq<u8>, f: int) -> Seq<(Seq<char>, Seq<char>)> {
    match field_child(t, f, "parameters"@) {
        Some(p) => props_in(t, src, named_children(t, p)),
        None => Seq::empty(),
    }
}

/// The hook node `j` calls: a call of a plain function whose name starts
/// with `use`.
pub open spec fn hook_at(t: Seq<NodeView>, src: Seq<u8>, j: int) -> Option<Seq<char>> {
    if t[j].kind == "call_expression"@ {
        match field_child(t, j, "function"@) {
            Some(f) => if t[f].kind == "identifier"@ && starts_with_spec(node_text(src, t[f]), "use"@) {
                Some(node_text(src, t[f]))
            } else {
                None
            },
            None => None,
        }
    } else {
        None
    }
}

/// The hooks called by the descendants of a node at depth `d`, from node
/// `j` on, in document order.
pub open spec fn hooks_from(t: Seq<NodeView>, src: Seq<u8>, d: usize, j: int) -> Seq<Seq<char>>
    decreases t.len() - j,
{
    if j < 0 || j >= t.len() || t[j].depth <= d {
        Seq::empty()
    } else {
        match hook_at(t, src, j) {
            Some(h) => seq![h] + hooks_from(t, src, d, j + 1),
            None => hooks_from(t, src, d, j + 1),
        }
    }
}

/// The hooks the body `b` (when there is one) calls, as a set.
pub open spec fn body_hooks(t: Seq<NodeView>, src: Seq<u8>, b: Option<int>) -> Set<Seq<char>> {
    match b {
        Some(x) => {
            let here = match hook_at(t, src, x) {
                Some(h) => seq![h],
                None => Seq::empty(),
            };
            (here + hooks_from(t, src, t[x].depth, x + 1)).to_set()
        },
        None => Set::empty(),
    }
}

/// `hooks` lists each hook of the body once (in no promised order).
pub open spec fn hooks_ok(hooks: Seq<Seq<char>>, t: Seq<NodeView>, src: Seq<u8>, b: Option<int>) -> bool {
    hooks.no_duplicates() && hooks.to_set() == body_hooks(t, src, b)
}

// ---------------------------------------------------------------------------
// Inner functions
// ---------------------------------------------------------------------------

/// A variable declarator binding a function (arrow function or function
/// expression) to a name: the function.
pub open spec fn bound_function(t: Seq<NodeView>, y: int) -> Option<int> {
    if t[y].kind == "variable_declarator"@ && field_child(t, y, "name"@) is Some {
        match field_child(t, y, "value"@) {
            Some(v) => if t[v].kind == "arrow_function"@ || t[v].kind == "function_expression"@ {
                Some(v)
            } else {
                None
            },
            None => None,
        }
    } else {
        None
    }
}

/// The declarators among `kids` that bind a function.
pub open spec fn binding_declarators(t: Seq<NodeView>, kids: Seq<int>) -> Seq<int>
    decreases kids.len(),
{
    if kids.len() == 0 {
        Seq::empty()
    } else {
        let prev = binding_declarators(t, kids.drop_last());
        if bound_function(t, kids.last()) is Some {
            prev.push(kids.last())
        } else {
            prev
        }
    }
}

/// A node the inner-function walk reports: a named function declaration or
/// a declarator binding a function.
pub open spec fn is_inner_node(t: Seq<NodeView>, z: int) -> bool {
    (t[z].kind == "function_declaration"@ && field_child(t, z, "name"@) is Some) || bound_function(t, z) is Some
}

/// The inner functions node `x` declares: itself, a named function
/// declaration; or the function-binding declarators of a `let`/`const`/
/// `var` declaration.
pub open spec fn inner_at(t: Seq<NodeView>, x: int) -> Seq<int> {
    if t[x].kind == "function_declaration"@ && field_child(t, x, "name"@) is Some {
        seq![x]
    } else if t[x].kind == "lexical_declaration"@ || t[x].kind == "variable_declaration"@ {
        binding_declarators(t, named_children(t, x))
    } else {
        Seq::empty()
    }
}

/// The inner functions declared by the named descendants (through named
/// nodes only) of a node at depth `d`, from node `j` on, in order.
pub open spec fn inner_scan(t: Seq<NodeView>, d: usize, j: int, skip: Option<usize>) -> Seq<int>
    decreases t.len() - j,
{
    if j < 0 || j >= t.len() || t[j].depth <= d {
        Seq::empty()
    } else if skipped(t, j, skip) {
        inner_scan(t, d, j + 1, skip)
    } else if !t[j].named {
        inner_scan(t, d, j + 1, Some(t[j].depth))
    } else {
        inner_at(t, j) + inner_scan(t, d, j + 1, None)
    }
}

/// The inner functions of a component body (when there is one).
pub open spec fn body_inner(t: Seq<NodeView>, b: Option<int>) -> Seq<int> {
    match b {
        Some(x) => inner_scan(t, t[x].depth, x + 1, None),
        None => Seq::empty(),
    }
}

// ---------------------------------------------------------------------------
// Chunks
// ---------------------------------------------------------------------------

/// A chunk the walk emits: a function component, a hook, a class
/// component, a component bound to a constant (by its declarator), or an
/// inner function (a declaration or declarator) of the named component.
pub enum ReactItem {
    Component(int),
    Hook(int),
    ClassComponent(int),
    BoundComponent(int),
    Inner(int, Seq<char>),
}

pub open spec fn inners(zs: Seq<int>, parent: Seq<char>) -> Seq<ReactItem> {
    Seq::new(zs.len(), |k: int| ReactItem::Inner(zs[k], parent))
}

/// Whether a class extends a component (its superclass names `Component`).
pub open spec fn extends_component(t: Seq<NodeView>, src: Seq<u8>, i: int) -> bool {
    match field_text(t, src, i, "superclass"@) {
        Some(sc) => contains_spec(sc, "Component"@) || ends_with_spec(sc, ".Component"@),
        None => false,
    }
}

/// Whether the declarator `y` binds a component: a capitalised name bound
/// to a function holding JSX.
pub open spec fn binds_component(t: Seq<NodeView>, src: Seq<u8>, y: int) -> bool {
    match bound_function(t, y) {
        Some(v) => is_component_name(field_text(t, src, y, "name"@)->0) && contains_jsx(t, v),
        None => false,
    }
}

/// The items and ranges from the first `n` component declarators of a
/// `let`/`const` declaration (`ys` are its declarator children).
pub open spec fn bound_items(t: Seq<NodeView>, src: Seq<u8>, ys: Seq<int>) -> Seq<ReactItem>
    decreases ys.len(),
{
    if ys.len() == 0 {
        Seq::empty()
    } else {
        let prev = bound_items(t, src, ys.drop_last());
        let y = ys.last();
        if binds_component(t, src, y) {
            let v = bound_function(t, y)->0;
            prev + seq![ReactItem::BoundComponent(y)] + inners(body_inner(t, field_child(t, v, "body"@)), field_text(t, src, y, "name"@)->0)
        } else {
            prev
        }
    }
}

pub open spec fn bound_spans(t: Seq<NodeView>, src: Seq<u8>, ys: Seq<int>) -> Seq<Span>
    decreases ys.len(),
{
    if ys.len() == 0 {
        Seq::empty()
    } else {
        let prev = bound_spans(t, src, ys.drop_last());
        if binds_component(t, src, ys.last()) {
            prev.push(removal_span(t, ys.last()))
        } else {
            prev
        }
    }
}

/// The items the walk emits at node `i`.
pub open spec fn react_items_at(t: Seq<NodeView>, src: Seq<u8>, i: int) -> Seq<ReactItem> {
    if t[i].kind == "function_declaration"@ && field_child(t, i, "name"@) is Some {
        let name = field_text(t, src, i, "name"@)->0;
        if is_component_name(name) && contains_jsx(t, i) {
            seq![ReactItem::Component(i)] + inners(body_inner(t, field_child(t, i, "body"@)), name)
        } else if is_hook_name(name) {
            seq![ReactItem::Hook(i)]
        } else {
            Seq::empty()
        }
    } else if t[i].kind == "class_declaration"@ {
        if extends_component(t, src, i) && field_child(t, i, "name"@) is Some {
            seq![ReactItem::ClassComponent(i)]
        } else {
            Seq::empty()
        }
    } else if t[i].kind == "lexical_declaration"@ {
        bound_items(t, src, kind_children(t, i, "variable_declarator"@))
    } else {
        Seq::empty()
    }
}

/// The ranges the walk takes out of the remainder at node `i`.
pub open spec fn react_spans_at(t: Seq<NodeView>, src: Seq<u8>, i: int) -> Seq<Span> {
    if t[i].kind == "function_declaration"@ && field_child(t, i, "name"@) is Some {
        let name = field_text(t, src, i, "name"@)->0;
        if (is_component_name(name) && contains_jsx(t, i)) || is_hook_name(name) {
            seq![(t[i].start, t[i].end)]
        } else {
            Seq::empty()
        }
    } else if t[i].kind == "class_declaration"@ {
        if extends_component(t, src, i) {
            seq![(t[i].start, t[i].end)]
        } else {
            Seq::empty()
        }
    } else if t[i].kind == "lexical_declaration"@ {
        bound_spans(t, src, kind_children(t, i, "variable_declarator"@))
    } else {
        Seq::empty()
    }
}

pub open spec fn react_items(t: Seq<NodeView>, src: Seq<u8>, n: int) -> Seq<ReactItem>
    decreases n,
{
    if n <= 0 {
        Seq::empty()
    } else {
        react_items(t, src, n - 1) + react_items_at(t, src, n - 1)
    }
}

pub open spec fn react_spans(t: Seq<NodeView>, src: Seq<u8>, n: int) -> Seq<Span>
    decreases n,
{
    if n <= 0 {
        Seq::empty()
    } else {
        react_spans(t, src, n - 1) + react_spans_at(t, src, n - 1)
    }
}

/// The props of a class component: `props` typed by the first type
/// identifier among its type parameters.
pub open spec fn class_props(t: Seq<NodeView>, src: Seq<u8>, i: int) -> Seq<(Seq<char>, Seq<char>)> {
    match field_child(t, i, "type_parameters"@) {
        Some(tp) => {
            let ids = crate::python_chunks::all_of_kind(t, named_children(t, tp), "type_identifier"@);
            if ids.len() > 0 {
                seq![("props"@, node_text(src, t[ids[0]]))]
            } else {
                Seq::empty()
            }
        },
        None => Seq::empty(),
    }
}

/// The props of a component bound to a constant: its function's props, and
/// `children` when the constant's type mentions `PropsWithChildren`.
pub open spec fn bound_props(t: Seq<NodeView>, src: Seq<u8>, y: int, v: int) -> Seq<(Seq<char>, Seq<char>)> {
    fn_props(t, src, v) + match field_text(t, src, y, "type"@) {
        Some(ty) => if contains_spec(ty, "PropsWithChildren"@) {
            seq![("children"@, "unknown"@)]
        } else {
            Seq::empty()
        },
        None => Seq::empty(),
    }
}

/// The chunk of an emitted item.
pub open spec fn is_react_item_chunk(c: CodeChunk, t: Seq<NodeView>, src: Seq<u8>, item: ReactItem, file_path: Seq<char>, deps: Seq<Seq<char>>) -> bool {
    match item {
        ReactItem::Component(i) | ReactItem::Hook(i) => {
            let name = field_text(t, src, i, "name"@);
            let ty = if item is Component { "functional_component"@ } else { "hook"@ };
            &&& is_extracted_chunk(c, file_path, id_name(seq![name]), node_text(src, t[i]), ty, deps)
            &&& c.kind matches CodeChunkKind::React(f) && {
                &&& opt_view(f.component_name) == name
                &&& f.is_functional
                &&& hooks_ok(views(f.hooks_used@), t, src, field_child(t, i, "body"@))
                &&& params_view(f.props@) == fn_props(t, src, i)
                &&& f.is_exported == is_exported(t, i)
                &&& f.component_type is None
                &&& f.parent_component is None
            }
        },
        ReactItem::ClassComponent(i) => {
            let name = field_text(t, src, i, "name"@);
            &&& is_extracted_chunk(c, file_path, id_name(seq![name]), node_text(src, t[i]), "class_component"@, deps)
            &&& c.kind matches CodeChunkKind::React(f) && {
                &&& opt_view(f.component_name) == name
                &&& !f.is_functional
                &&& f.hooks_used@.len() == 0
                &&& params_view(f.props@) == class_props(t, src, i)
                &&& f.is_exported == is_exported(t, i)
                &&& f.component_type is None
                &&& f.parent_component is None
            }
        },
        ReactItem::BoundComponent(y) => {
            let name = field_text(t, src, y, "name"@);
            let v = bound_function(t, y)->0;
            &&& is_extracted_chunk(c, file_path, id_name(seq![name]), node_text(src, t[y]), "functional_component"@, deps)
            &&& c.kind matches CodeChunkKind::React(f) && {
                &&& opt_view(f.component_name) == name
                &&& f.is_functional
                &&& hooks_ok(views(f.hooks_used@), t, src, field_child(t, v, "body"@))
                &&& params_view(f.props@) == bound_props(t, src, y, v)
                &&& f.is_exported == declaration_exported(t, y)
                &&& f.component_type is None
                &&& f.parent_component is None
            }
        },
        ReactItem::Inner(z, parent) => {
            let name = field_text(t, src, z, "name"@);
            let func = if t[z].kind == "function_declaration"@ {
                z
            } else {
                bound_function(t, z)->0
            };
            &&& is_extracted_chunk(c, file_path, id_name(seq![name]), node_text(src, t[z]), "function"@, deps)
            &&& c.kind matches CodeChunkKind::React(f) && {
                &&& opt_view(f.component_name) == name
                &&& f.is_functional
                &&& hooks_ok(views(f.hooks_used@), t, src, field_child(t, func, "body"@))
                &&& params_view(f.props@) == fn_props(t, src, func)
                &&& f.is_exported == is_exported(t, z)
                &&& f.component_type is None
                &&& opt_view(f.parent_component) == Some(parent)
            }
        },
    }
}

pub open spec fn react_chunks_match(cs: Seq<CodeChunk>, t: Seq<NodeView>, src: Seq<u8>, items: Seq<ReactItem>, file_path: Seq<char>, deps: Seq<Seq<char>>) -> bool {
    &&& cs.len() == items.len()
    &&& forall|k: int| 0 <= k < cs.len() ==> is_react_item_chunk(#[trigger] cs[k], t, src, items[k], file_path, deps)
}

/// `r` holds the chunks of a parsed TSX file: the items the walk emits, in
/// order, then the remainder chunk when their ranges leave any text.
pub open spec fn react_chunks_ok(r: Seq<CodeChunk>, t: Seq<NodeView>, src: Seq<u8>, file_path: Seq<char>, deps: Seq<Seq<char>>) -> bool {
    let items = react_items(t, src, t.len() as int);
    let spans = react_spans(t, src, t.len() as int);
    &&& r.len() == items.len() + if has_remainder(src, spans) { 1int } else { 0int }
    &&& react_chunks_match(r.take(items.len() as int), t, src, items, file_path, deps)
    &&& has_remainder(src, spans) ==> is_remainder_chunk(r[items.len() as int], src, spans, file_path, deps)
}

// ---------------------------------------------------------------------------
// Executable walk
// ---------------------------------------------------------------------------

fn is_jsx_kind_exec(k: &str) -> (r: bool)
    ensures
        r == is_jsx_kind(k@),
{
    str_eq(k, "jsx_element") || str_eq(k, "jsx_self_closing_element") || str_eq(k, "jsx_fragment")
}

/// Whether node `i` is or holds JSX (see `contains_jsx`).
fn contains_jsx_of(t: &Vec<SyntaxNode>, i: usize) -> (r: bool)
    requires
        i < t@.len(),
    ensures
        r == contains_jsx(nodes_view(t@), i as int),
{
    let ghost tv = nodes_view(t@);
    assert(tv[i as int] == t@[i as int]@);
    if is_jsx_kind_exec(t[i].kind.as_str()) {
        return true;
    }
    let d = t[i].depth;
    let n = t.len();
    let mut j = i + 1;
    while j < t.len() && t[j].depth > d
        invariant
            i < j <= t@.len(),
            tv == nodes_view(t@),
            d == tv[i as int].depth,
            !is_jsx_kind(tv[i as int].kind),
            jsx_from(tv, d, j as int) == contains_jsx(tv, i as int),
        decreases t.len() - j,
    {
        assert(tv[j as int] == t@[j as int]@);
        if is_jsx_kind_exec(t[j].kind.as_str()) {
            return true;
        }
        j += 1;
    }
    proof {
        if j < t@.len() {
            assert(tv[j as int] == t@[j as int]@);
        }
    }
    false
}

fn first_char_of(name: &str) -> (r: char)
    ensures
        r == first_char(name@),
{
    let v = chars_of(name);
    if v.len() > 0 {
        v[0]
    } else {
        ' '
    }
}

fn is_component_name_exec(name: &str) -> (r: bool)
    ensures
        r == is_component_name(name@),
{
    is_uppercase(first_char_of(name))
}

fn is_hook_name_exec(name: &str) -> (r: bool)
    ensures
        r == is_hook_name(name@),
{
    starts_with_str(name, "use") && is_lowercase(first_char_of(name))
}

/// The last node before node `j` at depth `k` (see `last_at_depth`).
fn last_at_depth_of(t: &Vec<SyntaxNode>, k: usize, j: usize) -> (r: Option<usize>)
    requires
        j <= t@.len(),
    ensures
        match r {
            Some(a) => last_at_depth(nodes_view(t@), k as int, j as int) == Some(a as int) && a < j,
            None => last_at_depth(nodes_view(t@), k as int, j as int) is None,
        },
{
    let ghost tv = nodes_view(t@);
    let mut m = j;
    while m > 0
        invariant
            m <= j <= t@.len(),
            tv == nodes_view(t@),
            last_at_depth(tv, k as int, m as int) == last_at_depth(tv, k as int, j as int),
        decreases m,
    {
        assert(tv[m - 1] == t@[m - 1]@);
        if t[m - 1].depth == k {
            return Some(m - 1);
        }
        m -= 1;
    }
    None
}

/// The parent of node `i` (see `parent_of`).
fn parent_of_exec(t: &Vec<SyntaxNode>, i: usize) -> (r: Option<usize>)
    requires
        i < t@.len(),
    ensures
        match r {
            Some(p) => parent_of(nodes_view(t@), i as int) == Some(p as int) && p < i,
            None => parent_of(nodes_view(t@), i as int) is None,
        },
{
    let ghost tv = nodes_view(t@);
    assert(tv[i as int] == t@[i as int]@);
    let d = t[i].depth;
    if d == 0 {
        proof {
            lemma_last_at_depth_bounds(tv, -1, i as int);
        }
        None
    } else {
        last_at_depth_of(t, d - 1, i)
    }
}

fn is_exported_of(t: &Vec<SyntaxNode>, i: usize) -> (r: bool)
    requires
        i < t@.len(),
    ensures
        r == is_exported(nodes_view(t@), i as int),
{
    match parent_of_exec(t, i) {
        Some(p) => {
            assert(nodes_view(t@)[p as int] == t@[p as int]@);
            str_eq(t[p].kind.as_str(), "export_statement")
        },
        None => false,
    }
}

fn declaration_exported_of(t: &Vec<SyntaxNode>, y: usize) -> (r: bool)
    requires
        y < t@.len(),
    ensures
        r == declaration_exported(nodes_view(t@), y as int),
{
    let ghost tv = nodes_view(t@);
    assert(tv[y as int] == t@[y as int]@);
    match parent_of_exec(t, y) {
        Some(p) => {
            let d = t[y].depth;
            let g = if d >= 2 {
                last_at_depth_of(t, d - 2, y)
            } else {
                proof {
                    lemma_last_at_depth_bounds(tv, d - 2, y as int);
                }
                None
            };
            match g {
                Some(g) => {
                    assert(tv[g as int] == t@[g as int]@);
                    str_eq(t[g].kind.as_str(), "export_statement")
                },
                None => false,
            }
        },
        None => false,
    }
}

/// The text a component declarator takes out of the remainder (see
/// `removal_span`).
fn removal_span_at(t: &Vec<SyntaxNode>, y: usize) -> (r: Span)
    requires
        y < t@.len(),
    ensures
        r == removal_span(nodes_view(t@), y as int),
{
    let ghost tv = nodes_view(t@);
    assert(tv[y as int] == t@[y as int]@);
    match parent_of_exec(t, y) {
        Some(p) => {
            assert(tv[p as int] == t@[p as int]@);
            let pk = t[p].kind.as_str();
            if (str_eq(pk, "lexical_declaration") || str_eq(pk, "variable_declaration")) && count_children(t, p, "variable_declarator") == 1 {
                let mut outer = p;
                if str_eq(pk, "variable_declaration") {
                    let d = t[y].depth;
                    let g = if d >= 2 {
                        last_at_depth_of(t, d - 2, y)
                    } else {
                        proof {
                            lemma_last_at_depth_bounds(tv, d - 2, y as int);
                        }
                        None
                    };
                    match g {
                        Some(g) => {
                            assert(tv[g as int] == t@[g as int]@);
                            if str_eq(t[g].kind.as_str(), "lexical_declaration") {
                                outer = g;
                            }
                        },
                        None => {},
                    }
                }
                assert(tv[outer as int] == t@[outer as int]@);
                (t[outer].start, t[outer].end)
            } else {
                (t[y].start, t[y].end)
            }
        },
        None => (t[y].start, t[y].end),
    }
}

fn hook_at_of(t: &Vec<SyntaxNode>, src: &[u8], j: usize) -> (r: Option<String>)
    requires
        j < t@.len(),
    ensures
        opt_view(r) == hook_at(nodes_view(t@), src@, j as int),
{
    let ghost tv = nodes_view(t@);
    assert(tv[j as int] == t@[j as int]@);
    if !str_eq(t[j].kind.as_str(), "call_expression") {
        return None;
    }
    match field_child_of(t, j, "function") {
        Some(f) => {
            assert(tv[f as int] == t@[f as int]@);
            if str_eq(t[f].kind.as_str(), "identifier") {
                let name = text_of(src, &t[f]);
                if starts_with_str(name.as_str(), "use") {
                    Some(name)
                } else {
                    None
                }
            } else {
                None
            }
        },
        None => None,
    }
}

proof fn lemma_concat_to_set(a: Seq<Seq<char>>, b: Seq<Seq<char>>)
    ensures
        (a + b).to_set() == a.to_set().union(b.to_set()),
{
    let ab = a + b;
    assert forall|x: Seq<char>| ab.contains(x) <==> (a.contains(x) || b.contains(x)) by {
        if ab.contains(x) {
            let k = choose|k: int| 0 <= k < ab.len() && ab[k] == x;
            if k < a.len() {
                assert(a[k] == x);
            } else {
                assert(b[k - a.len()] == x);
            }
        }
        if a.contains(x) {
            let k = choose|k: int| 0 <= k < a.len() && a[k] == x;
            assert(ab[k] == x);
        }
        if b.contains(x) {
            let k = choose|k: int| 0 <= k < b.len() && b[k] == x;
            assert(ab[k + a.len()] == x);
        }
    }
    assert(ab.to_set() =~= a.to_set().union(b.to_set()));
}

proof fn lemma_single_to_set(h: Seq<char>)
    ensures
        seq![h].to_set() == Set::<Seq<char>>::empty().insert(h),
{
    assert(seq![h][0] == h);
    assert(seq![h].to_set() =~= Set::<Seq<char>>::empty().insert(h));
}

/// The hooks body node `x` calls, each once (see `hooks_ok`).
fn body_hooks_of(t: &Vec<SyntaxNode>, src: &[u8], x: usize) -> (r: Vec<String>)
    requires
        x < t@.len(),
    ensures
        hooks_ok(views(r@), nodes_view(t@), src@, Some(x as int)),
{
    let ghost tv = nodes_view(t@);
    assert(tv[x as int] == t@[x as int]@);
    let d = t[x].depth;
    let ghost full = body_hooks(tv, src@, Some(x as int));
    let mut out: Vec<String> = Vec::new();
    match hook_at_of(t, src, x) {
        Some(h) => {
            push_string(&mut out, h);
        },
        None => {},
    }
    proof {
        let here = match hook_at(tv, src@, x as int) {
            Some(h) => seq![h],
            None => Seq::empty(),
        };
        assert(views(out@) =~= here);
        lemma_concat_to_set(here, hooks_from(tv, src@, d, x + 1));
    }
    let n = t.len();
    let mut j = x + 1;
    while j < t.len() && t[j].depth > d
        invariant
            x < j <= t@.len(),
            tv == nodes_view(t@),
            d == tv[x as int].depth,
            full == body_hooks(tv, src@, Some(x as int)),
            views(out@).no_duplicates(),
            views(out@).to_set().union(hooks_from(tv, src@, d, j as int).to_set()) == full,
        decreases t.len() - j,
    {
        assert(tv[j as int] == t@[j as int]@);
        let ghost rest = hooks_from(tv, src@, d, j + 1);
        let ghost before = views(out@);
        match hook_at_of(t, src, j) {
            Some(h) => {
                proof {
                    lemma_concat_to_set(seq![h@], rest);
                    lemma_single_to_set(h@);
                }
                if !contains_string(&out, h.as_str()) {
                    let ghost hv = h@;
                    push_string(&mut out, h);
                    proof {
                        lemma_concat_to_set(before, seq![hv]);
                        assert(before.push(hv) =~= before + seq![hv]);
                        assert(views(out@).to_set().union(rest.to_set()) =~= full);
                    }
                } else {
                    assert(before.to_set().union(rest.to_set()) =~= full);
                }
            },
            None => {},
        }
        j += 1;
    }
    proof {
        if j < t@.len() {
            assert(tv[j as int] == t@[j as int]@);
        }
        assert(hooks_from(tv, src@, d, j as int).to_set() =~= Set::<Seq<char>>::empty());
        assert(views(out@).to_set() =~= full);
    }
    out
}

fn hooks_of(t: &Vec<SyntaxNode>, src: &[u8], f: usize) -> (r: Vec<String>)
    requires
        f < t@.len(),
    ensures
        hooks_ok(views(r@), nodes_view(t@), src@, field_child(nodes_view(t@), f as int, "body"@)),
{
    match field_child_of(t, f, "body") {
        Some(b) => body_hooks_of(t, src, b),
        None => {
            let v: Vec<String> = Vec::new();
            assert(views(v@) =~= Seq::<Seq<char>>::empty());
            assert(views(v@).to_set() =~= Set::<Seq<char>>::empty());
            v
        },
    }
}

fn pattern_props_of(t: &Vec<SyntaxNode>, src: &[u8], kids: &Vec<usize>) -> (r: Vec<Parameter>)
    requires
        forall|q: int| 0 <= q < kids@.len() ==> #[trigger] kids@[q] < t@.len(),
    ensures
        params_view(r@) == pattern_props(nodes_view(t@), src@, ints(kids@), 0),
{
    let ghost tv = nodes_view(t@);
    let ghost ks = ints(kids@);
    let mut out: Vec<Parameter> = Vec::new();
    let mut q: usize = 0;
    while q < kids.len()
        invariant
            q <= kids@.len(),
            tv == nodes_view(t@),
            ks == ints(kids@),
            forall|z: int| 0 <= z < kids@.len() ==> #[trigger] kids@[z] < t@.len(),
            params_view(out@) + pattern_props(tv, src@, ks, q as int) == pattern_props(tv, src@, ks, 0),
        decreases kids@.len() - q,
    {
        let c = kids[q];
        assert(tv[c as int] == t@[c as int]@);
        let ghost before = params_view(out@);
        if str_eq(t[c].kind.as_str(), "property_identifier") {
            let name = text_of(src, &t[c]);
            let mut ty = String::new();
            if q + 1 < kids.len() {
                let c2 = kids[q + 1];
                assert(tv[c2 as int] == t@[c2 as int]@);
                if str_eq(t[c2].kind.as_str(), "type_annotation") {
                    ty = text_of(src, &t[c2]);
                }
            }
            let ghost entry = (name@, ty@);
            out.push(Parameter { name, param_type: ty });
            assert(params_view(out@) =~= before.push(entry));
            assert(before.push(entry) + pattern_props(tv, src@, ks, q + 1) =~= before + (seq![entry] + pattern_props(tv, src@, ks, q + 1)));
        }
        q += 1;
    }
    assert(pattern_props(tv, src@, ks, q as int) =~= Seq::<(Seq<char>, Seq<char>)>::empty());
    assert(params_view(out@) + Seq::<(Seq<char>, Seq<char>)>::empty() =~= params_view(out@));
    out
}

fn param_props_of(t: &Vec<SyntaxNode>, src: &[u8], j: usize) -> (r: Vec<Parameter>)
    requires
        j < t@.len(),
    ensures
        params_view(r@) == param_props(nodes_view(t@), src@, j as int),
{
    let ghost tv = nodes_view(t@);
    assert(tv[j as int] == t@[j as int]@);
    let k = t[j].kind.as_str();
    let mut out: Vec<Parameter> = Vec::new();
    if str_eq(k, "required_parameter") || str_eq(k, "optional_parameter") {
        let name_node = match field_child_of(t, j, "pattern") {
            Some(n) => Some(n),
            None => field_child_of(t, j, "name"),
        };
        match name_node {
            Some(n) => {
                assert(tv[n as int] == t@[n as int]@);
                let name = text_of(src, &t[n]);
                let ty = match field_text_of(t, src, j, "type") {
                    Some(x) => x,
                    None => String::new(),
                };
                let ghost entry = (name@, ty@);
                out.push(Parameter { name, param_type: ty });
                assert(params_view(out@) =~= seq![entry]);
            },
            None => {
                assert(params_view(out@) =~= Seq::<(Seq<char>, Seq<char>)>::empty());
            },
        }
        out
    } else if str_eq(k, "object_pattern") {
        let kids = named_children_of(t, j);
        assert(ints(kids@) =~= named_children(tv, j as int));
        pattern_props_of(t, src, &kids)
    } else {
        assert(params_view(out@) =~= Seq::<(Seq<char>, Seq<char>)>::empty());
        out
    }
}

/// The props of function node `f`'s parameter list (see `fn_props`).
fn fn_props_of(t: &Vec<SyntaxNode>, src: &[u8], f: usize) -> (r: Vec<Parameter>)
    requires
        f < t@.len(),
    ensures
        params_view(r@) == fn_props(nodes_view(t@), src@, f as int),
{
    let ghost tv = nodes_view(t@);
    let mut out: Vec<Parameter> = Vec::new();
    match field_child_of(t, f, "parameters") {
        Some(p) => {
            let kids = named_children_of(t, p);
            let ghost ks = named_children(tv, p as int);
            let mut k: usize = 0;
            while k < kids.len()
                invariant
                    k <= kids@.len(),
                    tv == nodes_view(t@),
                    kids@.len() == ks.len(),
                    forall|q: int| 0 <= q < kids@.len() ==> kids@[q] as int == ks[q] && #[trigger] kids@[q] < t@.len(),
                    params_view(out@) == props_in(tv, src@, ks.take(k as int)),
                decreases kids@.len() - k,
            {
                let j = kids[k];
                assert(ks.take(k + 1).drop_last() =~= ks.take(k as int));
                assert(ks.take(k + 1).last() == j as int);
                let ghost before = params_view(out@);
                let mut more = param_props_of(t, src, j);
                let ghost mv = params_view(more@);
                out.append(&mut more);
                assert(params_view(out@) =~= before + mv);
                k += 1;
            }
            assert(ks.take(kids@.len() as int) =~= ks);
        },
        None => {
            assert(params_view(out@) =~= Seq::<(Seq<char>, Seq<char>)>::empty());
        },
    }
    out
}

/// The declarator node `y` binds a function to a name: that function (see
/// `bound_function`).
fn bound_function_of(t: &Vec<SyntaxNode>, y: usize) -> (r: Option<usize>)
    requires
        y < t@.len(),
    ensures
        match r {
            Some(v) => bound_function(nodes_view(t@), y as int) == Some(v as int) && v < t@.len(),
            None => bound_function(nodes_view(t@), y as int) is None,
        },
{
    assert(nodes_view(t@)[y as int] == t@[y as int]@);
    if !str_eq(t[y].kind.as_str(), "variable_declarator") || field_child_of(t, y, "name").is_none() {
        return None;
    }
    match field_child_of(t, y, "value") {
        Some(v) => {
            assert(nodes_view(t@)[v as int] == t@[v as int]@);
            let vk = t[v].kind.as_str();
            if str_eq(vk, "arrow_function") || str_eq(vk, "function_expression") {
                Some(v)
            } else {
                None
            }
        },
        None => None,
    }
}

fn inner_at_of(t: &Vec<SyntaxNode>, x: usize) -> (r: Vec<usize>)
    requires
        x < t@.len(),
    ensures
        ints(r@) == inner_at(nodes_view(t@), x as int),
        forall|q: int| 0 <= q < r@.len() ==> #[trigger] r@[q] < t@.len() && is_inner_node(nodes_view(t@), r@[q] as int),
{
    let ghost tv = nodes_view(t@);
    assert(tv[x as int] == t@[x as int]@);
    let k = t[x].kind.as_str();
    let mut out: Vec<usize> = Vec::new();
    if str_eq(k, "function_declaration") && field_child_of(t, x, "name").is_some() {
        out.push(x);
        assert(ints(out@) =~= seq![x as int]);
    } else if str_eq(k, "lexical_declaration") || str_eq(k, "variable_declaration") {
        let kids = named_children_of(t, x);
        let ghost ks = named_children(tv, x as int);
        let mut q: usize = 0;
        while q < kids.len()
            invariant
                q <= kids@.len(),
                tv == nodes_view(t@),
                kids@.len() == ks.len(),
                forall|z: int| 0 <= z < kids@.len() ==> kids@[z] as int == ks[z] && #[trigger] kids@[z] < t@.len(),
                forall|z: int| 0 <= z < out@.len() ==> #[trigger] out@[z] < t@.len() && is_inner_node(tv, out@[z] as int),
                ints(out@) == binding_declarators(tv, ks.take(q as int)),
            decreases kids@.len() - q,
        {
            let c = kids[q];
            assert(ks.take(q + 1).drop_last() =~= ks.take(q as int));
            assert(ks.take(q + 1).last() == c as int);
            let ghost before = ints(out@);
            if bound_function_of(t, c).is_some() {
                out.push(c);
                assert(ints(out@) =~= before.push(c as int));
            }
            q += 1;
        }
        assert(ks.take(kids@.len() as int) =~= ks);
    } else {
        assert(ints(out@) =~= Seq::<int>::empty());
    }
    out
}

/// The inner functions of body node `x` (see `body_inner`).
fn body_inner_of(t: &Vec<SyntaxNode>, x: usize) -> (r: Vec<usize>)
    requires
        x < t@.len(),
    ensures
        ints(r@) == body_inner(nodes_view(t@), Some(x as int)),
        forall|q: int| 0 <= q < r@.len() ==> #[trigger] r@[q] < t@.len() && is_inner_node(nodes_view(t@), r@[q] as int),
{
    let ghost tv = nodes_view(t@);
    assert(tv[x as int] == t@[x as int]@);
    let d = t[x].depth;
    let n = t.len();
    let mut out: Vec<usize> = Vec::new();
    let mut skip: Option<usize> = None;
    let mut j = x + 1;
    assert(ints(out@) =~= Seq::<int>::empty());
    while j < t.len() && t[j].depth > d
        invariant
            x < j <= t@.len(),
            tv == nodes_view(t@),
            d == tv[x as int].depth,
            forall|z: int| 0 <= z < out@.len() ==> #[trigger] out@[z] < t@.len() && is_inner_node(tv, out@[z] as int),
            ints(out@) + inner_scan(tv, d, j as int, skip) == body_inner(tv, Some(x as int)),
        decreases t.len() - j,
    {
        assert(tv[j as int] == t@[j as int]@);
        let skipping = match skip {
            Some(sd) => t[j].depth > sd,
            None => false,
        };
        if skipping {
        } else if !t[j].named {
            skip = Some(t[j].depth);
        } else {
            let ghost before = ints(out@);
            let ghost before_raw = out@;
            let mut here = inner_at_of(t, j);
            let ghost hv = ints(here@);
            let ghost here_raw = here@;
            out.append(&mut here);
            assert forall|z: int| 0 <= z < out@.len() implies #[trigger] out@[z] < t@.len() && is_inner_node(tv, out@[z] as int) by {
                if z < before_raw.len() {
                    assert(out@[z] == before_raw[z]);
                } else {
                    assert(out@[z] == here_raw[z - before_raw.len()]);
                }
            }
            assert(ints(out@) =~= before + hv);
            assert(ints(out@) + inner_scan(tv, d, j + 1, None) =~= before + (hv + inner_scan(tv, d, j + 1, None)));
            skip = None;
        }
        j += 1;
    }
    proof {
        if j < t@.len() {
            assert(tv[j as int] == t@[j as int]@);
        }
        assert(ints(out@) + Seq::<int>::empty() =~= ints(out@));
    }
    out
}

pub proof fn lemma_match_concat(c1: Seq<CodeChunk>, c2: Seq<CodeChunk>, t: Seq<NodeView>, src: Seq<u8>, i1: Seq<ReactItem>, i2: Seq<ReactItem>, file_path: Seq<char>, deps: Seq<Seq<char>>)
    requires
        react_chunks_match(c1, t, src, i1, file_path, deps),
        react_chunks_match(c2, t, src, i2, file_path, deps),
    ensures
        react_chunks_match(c1 + c2, t, src, i1 + i2, file_path, deps),
{
    let cs = c1 + c2;
    let is = i1 + i2;
    assert forall|k: int| 0 <= k < cs.len() implies is_react_item_chunk(#[trigger] cs[k], t, src, is[k], file_path, deps) by {
        if k < c1.len() {
            assert(cs[k] == c1[k]);
            assert(is[k] == i1[k]);
        } else {
            assert(cs[k] == c2[k - c1.len()]);
            assert(is[k] == i2[k - c1.len()]);
        }
    }
}

/// The chunk of a function component (or, with `hook`, a hook) declared
/// at node `i`.
fn function_chunk(t: &Vec<SyntaxNode>, src: &[u8], i: usize, hook: bool, file_path: &str, deps: &Vec<String>) -> (c: CodeChunk)
    requires
        i < t@.len(),
    ensures
        is_react_item_chunk(c, nodes_view(t@), src@, if hook { ReactItem::Hook(i as int) } else { ReactItem::Component(i as int) }, file_path@, views(deps@)),
{
    let ghost tv = nodes_view(t@);
    assert(tv[i as int] == t@[i as int]@);
    let name = field_text_of(t, src, i, "name");
    let props = fn_props_of(t, src, i);
    let hooks = hooks_of(t, src, i);
    let code = text_of(src, &t[i]);
    let exported = is_exported_of(t, i);
    let ty = if hook { "hook" } else { "functional_component" };
    create_react_chunk(file_path, name, true, props, hooks, code, ty, deps, None, exported)
}

/// The chunk of a class component declared at node `i`.
fn class_chunk(t: &Vec<SyntaxNode>, src: &[u8], i: usize, file_path: &str, deps: &Vec<String>) -> (c: CodeChunk)
    requires
        i < t@.len(),
    ensures
        is_react_item_chunk(c, nodes_view(t@), src@, ReactItem::ClassComponent(i as int), file_path@, views(deps@)),
{
    let ghost tv = nodes_view(t@);
    assert(tv[i as int] == t@[i as int]@);
    let name = field_text_of(t, src, i, "name");
    let mut props: Vec<Parameter> = Vec::new();
    match field_child_of(t, i, "type_parameters") {
        Some(tp) => {
            let kids = named_children_of(t, tp);
            assert(ints(kids@) =~= named_children(tv, tp as int));
            let ids = all_of_kind_of(t, &kids, "type_identifier");
            if ids.len() > 0 {
                let c0 = ids[0];
                assert(ints(ids@)[0] == c0 as int);
                let ty = text_of(src, &t[c0]);
                assert(tv[c0 as int] == t@[c0 as int]@);
                let ghost entry = ("props"@, ty@);
                props.push(Parameter { name: "props".to_owned(), param_type: ty });
                assert(params_view(props@) =~= seq![entry]);
            } else {
                assert(params_view(props@) =~= Seq::<(Seq<char>, Seq<char>)>::empty());
            }
        },
        None => {
            assert(params_view(props@) =~= Seq::<(Seq<char>, Seq<char>)>::empty());
        },
    }
    let code = text_of(src, &t[i]);
    let exported = is_exported_of(t, i);
    let hooks: Vec<String> = Vec::new();
    create_react_chunk(file_path, name, false, props, hooks, code, "class_component", deps, None, exported)
}

/// The chunk of a component bound by declarator `y` to function `v`.
fn bound_chunk(t: &Vec<SyntaxNode>, src: &[u8], y: usize, v: usize, file_path: &str, deps: &Vec<String>) -> (c: CodeChunk)
    requires
        y < t@.len(),
        v < t@.len(),
        bound_function(nodes_view(t@), y as int) == Some(v as int),
    ensures
        is_react_item_chunk(c, nodes_view(t@), src@, ReactItem::BoundComponent(y as int), file_path@, views(deps@)),
{
    let ghost tv = nodes_view(t@);
    assert(tv[y as int] == t@[y as int]@);
    let name = field_text_of(t, src, y, "name");
    let mut props = fn_props_of(t, src, v);
    let ghost fp = params_view(props@);
    match field_text_of(t, src, y, "type") {
        Some(ty) => {
            if contains_str(ty.as_str(), "PropsWithChildren") {
                props.push(Parameter { name: "children".to_owned(), param_type: "unknown".to_owned() });
                assert(params_view(props@) =~= fp + seq![("children"@, "unknown"@)]);
            } else {
                assert(params_view(props@) =~= fp + Seq::<(Seq<char>, Seq<char>)>::empty());
            }
        },
        None => {
            assert(params_view(props@) =~= fp + Seq::<(Seq<char>, Seq<char>)>::empty());
        },
    }
    let hooks = hooks_of(t, src, v);
    let code = text_of(src, &t[y]);
    let exported = declaration_exported_of(t, y);
    create_react_chunk(file_path, name, true, props, hooks, code, "functional_component", deps, None, exported)
}

/// The chunk of inner function `z` of the component named `parent`.
fn inner_chunk(t: &Vec<SyntaxNode>, src: &[u8], z: usize, parent: &String, file_path: &str, deps: &Vec<String>) -> (c: CodeChunk)
    requires
        z < t@.len(),
        is_inner_node(nodes_view(t@), z as int),
    ensures
        is_react_item_chunk(c, nodes_view(t@), src@, ReactItem::Inner(z as int, parent@), file_path@, views(deps@)),
{
    let ghost tv = nodes_view(t@);
    assert(tv[z as int] == t@[z as int]@);
    let func = if str_eq(t[z].kind.as_str(), "function_declaration") {
        z
    } else {
        match bound_function_of(t, z) {
            Some(v) => v,
            None => z,
        }
    };
    let name = field_text_of(t, src, z, "name");
    let props = fn_props_of(t, src, func);
    let hooks = hooks_of(t, src, func);
    let code = text_of(src, &t[z]);
    let exported = is_exported_of(t, z);
    create_react_chunk(file_path, name, true, props, hooks, code, "function", deps, Some(parent.clone()), exported)
}

/// The chunks of the inner functions of function node `f`'s body, under
/// the component named `parent`.
fn inner_chunks(t: &Vec<SyntaxNode>, src: &[u8], f: usize, parent: &String, file_path: &str, deps: &Vec<String>) -> (r: Vec<CodeChunk>)
    requires
        f < t@.len(),
    ensures
        react_chunks_match(r@, nodes_view(t@), src@, inners(body_inner(nodes_view(t@), field_child(nodes_view(t@), f as int, "body"@)), parent@), file_path@, views(deps@)),
{
    let ghost tv = nodes_view(t@);
    let mut out: Vec<CodeChunk> = Vec::new();
    match field_child_of(t, f, "body") {
        Some(b) => {
            let zs = body_inner_of(t, b);
            let ghost items = inners(ints(zs@), parent@);
            let mut k: usize = 0;
            while k < zs.len()
                invariant
                    k <= zs@.len(),
                    tv == nodes_view(t@),
                    items == inners(ints(zs@), parent@),
                    forall|q: int| 0 <= q < zs@.len() ==> #[trigger] zs@[q] < t@.len() && is_inner_node(tv, zs@[q] as int),
                    out@.len() == k,
                    forall|q: int| 0 <= q < k ==> is_react_item_chunk(#[trigger] out@[q], tv, src@, items[q], file_path@, views(deps@)),
                decreases zs@.len() - k,
            {
                let z = zs[k];
                let c = inner_chunk(t, src, z, parent, file_path, deps);
                assert(items[k as int] == ReactItem::Inner(z as int, parent@));
                out.push(c);
                k += 1;
            }
        },
        None => {},
    }
    out
}

fn extends_component_of(t: &Vec<SyntaxNode>, src: &[u8], i: usize) -> (r: bool)
    requires
        i < t@.len(),
    ensures
        r == extends_component(nodes_view(t@), src@, i as int),
{
    match field_text_of(t, src, i, "superclass") {
        Some(sc) => contains_str(sc.as_str(), "Component") || ends_with_str(sc.as_str(), ".Component"),
        None => false,
    }
}

/// The chunks and removed ranges of the component declarators of the
/// `let`/`const` declaration at node `i`.
fn bound_at(t: &Vec<SyntaxNode>, src: &[u8], i: usize, file_path: &str, deps: &Vec<String>) -> (r: (Vec<CodeChunk>, Vec<Span>))
    requires
        i < t@.len(),
    ensures
        react_chunks_match(r.0@, nodes_view(t@), src@, bound_items(nodes_view(t@), src@, kind_children(nodes_view(t@), i as int, "variable_declarator"@)), file_path@, views(deps@)),
        r.1@ == bound_spans(nodes_view(t@), src@, kind_children(nodes_view(t@), i as int, "variable_declarator"@)),
{
    let ghost tv = nodes_view(t@);
    let ys = kind_children_of(t, i, "variable_declarator");
    let ghost yv = kind_children(tv, i as int, "variable_declarator"@);
    let mut chunks: Vec<CodeChunk> = Vec::new();
    let mut spans: Vec<Span> = Vec::new();
    let mut q: usize = 0;
    while q < ys.len()
        invariant
            q <= ys@.len(),
            tv == nodes_view(t@),
            yv == kind_children(tv, i as int, "variable_declarator"@),
            ys@.len() == yv.len(),
            forall|z: int| 0 <= z < ys@.len() ==> ys@[z] as int == yv[z] && #[trigger] ys@[z] < t@.len(),
            react_chunks_match(chunks@, tv, src@, bound_items(tv, src@, yv.take(q as int)), file_path@, views(deps@)),
            spans@ == bound_spans(tv, src@, yv.take(q as int)),
        decreases ys@.len() - q,
    {
        let y = ys[q];
        assert(yv.take(q + 1).drop_last() =~= yv.take(q as int));
        assert(yv.take(q + 1).last() == y as int);
        match bound_function_of(t, y) {
            Some(v) => {
                let name = field_text_of(t, src, y, "name");
                match name {
                    Some(n) => {
                        if is_component_name_exec(n.as_str()) && contains_jsx_of(t, v) {
                            let ghost before = chunks@;
                            let ghost prev_items = bound_items(tv, src@, yv.take(q as int));
                            let c = bound_chunk(t, src, y, v, file_path, deps);
                            let mut rest = inner_chunks(t, src, v, &n, file_path, deps);
                            let ghost rv = rest@;
                            let mut one: Vec<CodeChunk> = Vec::new();
                            one.push(c);
                            proof {
                                lemma_match_concat(before, one@, tv, src@, prev_items, seq![ReactItem::BoundComponent(y as int)], file_path@, views(deps@));
                                lemma_match_concat(before + one@, rv, tv, src@, prev_items + seq![ReactItem::BoundComponent(y as int)], inners(body_inner(tv, field_child(tv, v as int, "body"@)), n@), file_path@, views(deps@));
                            }
                            chunks.append(&mut one);
                            chunks.append(&mut rest);
                            spans.push(removal_span_at(t, y));
                        }
                    },
                    None => {},
                }
            },
            None => {},
        }
        q += 1;
    }
    assert(yv.take(ys@.len() as int) =~= yv);
    (chunks, spans)
}

/// The chunks the walk emits at node `i`, and the ranges it takes out of
/// the remainder there.
fn react_at(t: &Vec<SyntaxNode>, src: &[u8], i: usize, file_path: &str, deps: &Vec<String>) -> (r: (Vec<CodeChunk>, Vec<Span>))
    requires
        i < t@.len(),
    ensures
        react_chunks_match(r.0@, nodes_view(t@), src@, react_items_at(nodes_view(t@), src@, i as int), file_path@, views(deps@)),
        r.1@ == react_spans_at(nodes_view(t@), src@, i as int),
{
    let ghost tv = nodes_view(t@);
    assert(tv[i as int] == t@[i as int]@);
    let kind = t[i].kind.as_str();
    let mut chunks: Vec<CodeChunk> = Vec::new();
    let mut spans: Vec<Span> = Vec::new();
    proof {
        reveal_strlit("function_declaration");
        reveal_strlit("class_declaration");
        reveal_strlit("lexical_declaration");
        assert("function_declaration"@.len() != "class_declaration"@.len());
        assert("function_declaration"@.len() != "lexical_declaration"@.len());
        assert("class_declaration"@.len() != "lexical_declaration"@.len());
    }
    if str_eq(kind, "function_declaration") {
        match field_text_of(t, src, i, "name") {
            Some(name) => {
                if is_component_name_exec(name.as_str()) && contains_jsx_of(t, i) {
                    let c = function_chunk(t, src, i, false, file_path, deps);
                    let mut rest = inner_chunks(t, src, i, &name, file_path, deps);
                    let ghost rv = rest@;
                    chunks.push(c);
                    let ghost one = chunks@;
                    proof {
                        lemma_match_concat(one, rv, tv, src@, seq![ReactItem::Component(i as int)], inners(body_inner(tv, field_child(tv, i as int, "body"@)), name@), file_path@, views(deps@));
                    }
                    chunks.append(&mut rest);
                    spans.push((t[i].start, t[i].end));
                } else if is_hook_name_exec(name.as_str()) {
                    let c = function_chunk(t, src, i, true, file_path, deps);
                    chunks.push(c);
                    spans.push((t[i].start, t[i].end));
                }
            },
            None => {},
        }
    } else if str_eq(kind, "class_declaration") {
        if extends_component_of(t, src, i) {
            spans.push((t[i].start, t[i].end));
            if field_child_of(t, i, "name").is_some() {
                let c = class_chunk(t, src, i, file_path, deps);
                chunks.push(c);
            }
        }
    } else if str_eq(kind, "lexical_declaration") {
        return bound_at(t, src, i, file_path, deps);
    }
    (chunks, spans)
}

/// The chunks of a parsed TSX file: components, hooks and their inner
/// functions in walk order, then the remainder chunk when they leave any
/// text.
pub fn extract_chunks(nodes: &Vec<SyntaxNode>, source: &[u8], file_path: &str, deps: &Vec<String>) -> (r: Vec<CodeChunk>)
    ensures
        react_chunks_ok(r@, nodes_view(nodes@), source@, file_path@, views(deps@)),
{
    let ghost tv = nodes_view(nodes@);
    let mut chunks: Vec<CodeChunk> = Vec::new();
    let mut spans: Vec<Span> = Vec::new();
    let mut i: usize = 0;
    while i < nodes.len()
        invariant
            i <= nodes@.len(),
            tv == nodes_view(nodes@),
            react_chunks_match(chunks@, tv, source@, react_items(tv, source@, i as int), file_path@, views(deps@)),
            spans@ == react_spans(tv, source@, i as int),
        decreases nodes.len() - i,
    {
        let (mut cs, mut sp) = react_at(nodes, source, i, file_path, deps);
        proof {
            lemma_match_concat(chunks@, cs@, tv, source@, react_items(tv, source@, i as int), react_items_at(tv, source@, i as int), file_path@, views(deps@));
        }
        chunks.append(&mut cs);
        spans.append(&mut sp);
        i += 1;
    }
    let n = chunks.len();
    let ghost made = chunks@;
    match make_remainder_chunk(source, spans.as_slice(), file_path, deps) {
        Some(rc) => {
            chunks.push(rc);
            assert(chunks@.take(n as int) =~= made);
        },
        None => {
            assert(chunks@.take(n as int) =~= made);
        },
    }
    chunks
}

/// The modules a parsed TSX file imports, each once, in document order.
pub fn extract_dependencies(nodes: &Vec<SyntaxNode>, source: &[u8]) -> (r: Vec<String>)
    ensures
        views(r@) == js_deps(nodes_view(nodes@), source@, nodes@.len() as int),
{
    crate::js_chunks::extract_dependencies(nodes, source)
}

/// The chunks of a TSX source file, with its imports as dependencies; none
/// when the source does not parse.
pub fn chunk_react_source(source: &[u8], file_path: &str) -> (r: Vec<CodeChunk>)
    ensures
        match tsx_syntax_spec(source@) {
            Some(t) => react_chunks_ok(r@, t, source@, file_path@, js_deps(t, source@, t.len() as int)),
            None => r@.len() == 0,
        },
{
    match parse_tsx(source) {
        Some(nodes) => {
            let deps = extract_dependencies(&nodes, source);
            extract_chunks(&nodes, source, file_path, &deps)
        },
        None => Vec::new(),
    }
}

/// The modules a TSX source file imports; none when it does not parse.
pub fn react_source_dependencies(source: &[u8]) -> (r: Vec<String>)
    ensures
        match tsx_syntax_spec(source@) {
            Some(t) => views(r@) == js_deps(t, source@, t.len() as int),
            None => r@.len() == 0,
        },
{
    match parse_tsx(source) {
        Some(nodes) => extract_dependencies(&nodes, source),
        None => Vec::new(),
    }
}

} // verus!
