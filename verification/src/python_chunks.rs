//! The Python chunker: walking each scope's statements, every function,
//! class, type alias statement, `TypeAlias` assignment and named lambda
//! becomes a chunk; functions and classes are walked into through their
//! bodies, which gives methods their class. A class's chunk holds its
//! header and its property assignments. What the chunks leave of the file
//! becomes the remainder chunk.
use vstd::prelude::*;
use crate::syntax::{
    SyntaxNode, NodeView, nodes_view, node_text, field_child, field_text, named_children,
    named_children_from, text_of, field_child_of, field_text_of, named_children_of,
    lemma_field_child_bounds,
};
use crate::js_chunks::{child_of_kind_from, child_of_kind};
use crate::c_chunks::skipped;
use crate::sql_tree::{kind_children, kind_children_of, slice_text};
use crate::java_chunks::{is_remainder_chunk, has_remainder, contains_string};
use crate::code_chunk::CodeChunk;
use crate::chunk_types::{CodeChunkKind, PythonFields, Parameter, opt_view, params_view};
use crate::chunk_make::{make_python_chunk, is_extracted_chunk, id_name};
use crate::spans::{Span, byte_slice_text};
use crate::sql::make_remainder_chunk;
use crate::text::{trim_spec, trim_end_spec, trim_str, trim_end_chars, str_eq, chars_of, string_of, string_of_range};
use crate::seqtext::{views, join, join_strings, push_string};

verus! {

/// The nodes, in document order, of the tree tree-sitter's Python grammar
/// parses the source into; `None` when parsing gives no tree.
pub uninterp spec fn python_syntax_spec(source: Seq<u8>) -> Option<Seq<NodeView>>;

/// `Parser::parse` with the Python grammar, the tree walked in document
/// order with a `TreeCursor` (`kind`, `is_named`, `start_byte`, `end_byte`,
/// `field_name`, `depth` of each node). The contract names the result: a
/// function of the source alone.
#[verifier::external_body]
pub(crate) fn parse_python(source: &[u8]) -> (r: Option<Vec<SyntaxNode>>)
    ensures
        match r {
            Some(v) => python_syntax_spec(source@) == Some(nodes_view(v@)),
            None => python_syntax_spec(source@) is None,
        },
{
    let mut parser = tree_sitter::Parser::new();
    parser.set_language(&tree_sitter_python::LANGUAGE.into()).ok()?;
    let tree = parser.parse(source, None)?;
    let (mut c, mut out) = (tree.walk(), Vec::new());
    loop {
        let n = c.node();
        out.push(SyntaxNode { kind: n.kind().into(), named: n.is_named(), start: n.start_byte(), end: n.end_byte(), field: c.field_name().map(Into::into), depth: c.depth() as usize });
        if !c.goto_first_child() {
            while !c.goto_next_sibling() {
                if !c.goto_parent() {
                    return Some(out);
                }
            }
        }
    }
}

/// A field's text, trimmed.
pub open spec fn field_trimmed(t: Seq<NodeView>, src: Seq<u8>, i: int, f: Seq<char>) -> Option<Seq<char>> {
    match field_text(t, src, i, f) {
        Some(x) => Some(trim_spec(x)),
        None => None,
    }
}

fn field_trimmed_of(t: &Vec<SyntaxNode>, src: &[u8], i: usize, f: &str) -> (r: Option<String>)
    requires
        i < t@.len(),
    ensures
        opt_view(r) == field_trimmed(nodes_view(t@), src@, i as int, f@),
{
    match field_text_of(t, src, i, f) {
        Some(x) => Some(trim_str(x.as_str())),
        None => None,
    }
}

// ---------------------------------------------------------------------------
// Dependencies
// ---------------------------------------------------------------------------

/// The children of node `i` filling field `f`, from node `j` on, in order.
pub open spec fn field_children_from(t: Seq<NodeView>, i: int, f: Seq<char>, j: int) -> Seq<int>
    decreases t.len() - j,
{
    if j < 0 || j >= t.len() || t[j].depth <= t[i].depth {
        Seq::empty()
    } else if t[j].depth == t[i].depth + 1 && t[j].field == Some(f) {
        seq![j] + field_children_from(t, i, f, j + 1)
    } else {
        field_children_from(t, i, f, j + 1)
    }
}

/// The module an imported name names: an aliased import's `name`, else the
/// whole text; trimmed.
pub open spec fn import_name(t: Seq<NodeView>, src: Seq<u8>, j: int) -> Seq<char> {
    if t[j].kind == "aliased_import"@ && field_child(t, j, "name"@) is Some {
        trim_spec(node_text(src, t[field_child(t, j, "name"@)->0]))
    } else {
        trim_spec(node_text(src, t[j]))
    }
}

/// Adds the non-empty modules `mods` names to `deps`, each once.
pub open spec fn add_modules(deps: Seq<Seq<char>>, mods: Seq<Seq<char>>) -> Seq<Seq<char>>
    decreases mods.len(),
{
    if mods.len() == 0 {
        deps
    } else {
        let prev = add_modules(deps, mods.drop_last());
        let m = mods.last();
        if m.len() > 0 && !prev.contains(m) {
            prev.push(m)
        } else {
            prev
        }
    }
}

/// The modules node `j` imports: each name of an `import` statement; the
/// module of a `from` import (`__future__` for a future import without
/// one).
pub open spec fn imported_modules(t: Seq<NodeView>, src: Seq<u8>, j: int) -> Seq<Seq<char>> {
    if t[j].kind == "import_statement"@ {
        let names = field_children_from(t, j, "name"@, j + 1);
        Seq::new(names.len(), |q: int| import_name(t, src, names[q]))
    } else if t[j].kind == "import_from_statement"@ || t[j].kind == "future_import_statement"@ {
        match field_trimmed(t, src, j, "module_name"@) {
            Some(m) => seq![m],
            None => if t[j].kind == "future_import_statement"@ {
                seq!["__future__"@]
            } else {
                Seq::empty()
            },
        }
    } else {
        Seq::empty()
    }
}

/// The modules the first `n` nodes import, non-empty and each once, in
/// document order.
pub open spec fn py_deps(t: Seq<NodeView>, src: Seq<u8>, n: int) -> Seq<Seq<char>>
    decreases n,
{
    if n <= 0 {
        Seq::empty()
    } else {
        add_modules(py_deps(t, src, n - 1), imported_modules(t, src, n - 1))
    }
}

fn field_children_of(t: &Vec<SyntaxNode>, i: usize, f: &str) -> (r: Vec<usize>)
    requires
        i < t@.len(),
    ensures
        r@.len() == field_children_from(nodes_view(t@), i as int, f@, i + 1).len(),
        forall|q: int| 0 <= q < r@.len() ==> r@[q] as int == field_children_from(nodes_view(t@), i as int, f@, i + 1)[q] && #[trigger] r@[q] < t@.len(),
{
    let ghost tv = nodes_view(t@);
    assert(tv[i as int] == t@[i as int]@);
    let d = t[i].depth;
    let n = t.len();
    let mut out: Vec<usize> = Vec::new();
    let mut j = i + 1;
    while j < t.len() && t[j].depth > d
        invariant
            i < j <= t@.len(),
            tv == nodes_view(t@),
            d == tv[i as int].depth,
            out@.len() + field_children_from(tv, i as int, f@, j as int).len() == field_children_from(tv, i as int, f@, i + 1).len(),
            forall|q: int| 0 <= q < out@.len() ==> out@[q] as int == field_children_from(tv, i as int, f@, i + 1)[q] && #[trigger] out@[q] < t@.len(),
            forall|q: int| 0 <= q < field_children_from(tv, i as int, f@, j as int).len() ==> field_children_from(tv, i as int, f@, j as int)[q] == field_children_from(tv, i as int, f@, i + 1)[out@.len() + q],
        decreases t.len() - j,
    {
        assert(tv[j as int] == t@[j as int]@);
        let hit = t[j].depth == d + 1 && match &t[j].field {
            Some(name) => str_eq(name.as_str(), f),
            None => false,
        };
        if hit {
            let ghost rest = field_children_from(tv, i as int, f@, j + 1);
            assert(field_children_from(tv, i as int, f@, j as int) == seq![j as int] + rest);
            assert(field_children_from(tv, i as int, f@, j as int)[0] == j as int);
            out.push(j);
            assert forall|q: int| 0 <= q < rest.len() implies rest[q] == field_children_from(tv, i as int, f@, i + 1)[out@.len() + q] by {
                assert(field_children_from(tv, i as int, f@, j as int)[q + 1] == rest[q]);
            }
        }
        j += 1;
    }
    proof {
        if j < t@.len() {
            assert(tv[j as int] == t@[j as int]@);
        }
        assert(field_children_from(tv, i as int, f@, j as int).len() == 0);
    }
    out
}

fn import_name_of(t: &Vec<SyntaxNode>, src: &[u8], j: usize) -> (r: String)
    requires
        j < t@.len(),
    ensures
        r@ == import_name(nodes_view(t@), src@, j as int),
{
    assert(nodes_view(t@)[j as int] == t@[j as int]@);
    if str_eq(t[j].kind.as_str(), "aliased_import") {
        match field_child_of(t, j, "name") {
            Some(c) => {
                assert(nodes_view(t@)[c as int] == t@[c as int]@);
                return trim_str(text_of(src, &t[c]).as_str());
            },
            None => {},
        }
    }
    trim_str(text_of(src, &t[j]).as_str())
}

fn add_module(deps: &mut Vec<String>, m: String)
    ensures
        views(final(deps)@) == if m@.len() > 0 && !views(old(deps)@).contains(m@) {
            views(old(deps)@).push(m@)
        } else {
            views(old(deps)@)
        },
{
    if !m.as_str().is_empty() && !contains_string(deps, m.as_str()) {
        push_string(deps, m);
    }
}

/// The modules a parsed Python file imports, each once, in document order.
pub fn extract_dependencies(nodes: &Vec<SyntaxNode>, source: &[u8]) -> (r: Vec<String>)
    ensures
        views(r@) == py_deps(nodes_view(nodes@), source@, nodes@.len() as int),
{
    let ghost tv = nodes_view(nodes@);
    let mut deps: Vec<String> = Vec::new();
    let mut i: usize = 0;
    while i < nodes.len()
        invariant
            i <= nodes@.len(),
            tv == nodes_view(nodes@),
            views(deps@) == py_deps(tv, source@, i as int),
        decreases nodes.len() - i,
    {
        assert(tv[i as int] == nodes@[i as int]@);
        let ghost base = views(deps@);
        let ghost mods = imported_modules(tv, source@, i as int);
        let kind = nodes[i].kind.as_str();
        if str_eq(kind, "import_statement") {
            let names = field_children_of(nodes, i, "name");
            let mut q: usize = 0;
            while q < names.len()
                invariant
                    q <= names@.len(),
                    tv == nodes_view(nodes@),
                    i < nodes@.len(),
                    tv[i as int].kind == "import_statement"@,
                    mods == imported_modules(tv, source@, i as int),
                    names@.len() == mods.len(),
                    forall|z: int| 0 <= z < names@.len() ==> names@[z] as int == field_children_from(tv, i as int, "name"@, i + 1)[z] && #[trigger] names@[z] < nodes@.len(),
                    views(deps@) == add_modules(base, mods.take(q as int)),
                decreases names.len() - q,
            {
                assert(mods.take(q + 1).drop_last() =~= mods.take(q as int));
                let m = import_name_of(nodes, source, names[q]);
                assert(m@ == mods[q as int]);
                add_module(&mut deps, m);
                q += 1;
            }
            assert(mods.take(names@.len() as int) =~= mods);
        } else if str_eq(kind, "import_from_statement") || str_eq(kind, "future_import_statement") {
            match field_trimmed_of(nodes, source, i, "module_name") {
                Some(m) => {
                    assert(mods == seq![m@]);
                    assert(mods.drop_last() =~= Seq::<Seq<char>>::empty());
                    assert(add_modules(base, mods.drop_last()) == base);
                    add_module(&mut deps, m);
                },
                None => {
                    if str_eq(kind, "future_import_statement") {
                        proof {
                            reveal_strlit("__future__");
                        }
                        assert(mods.drop_last() =~= Seq::<Seq<char>>::empty());
                        assert(add_modules(base, mods.drop_last()) == base);
                        add_module(&mut deps, "__future__".to_owned());
                    } else {
                        assert(mods =~= Seq::<Seq<char>>::empty());
                    }
                },
            }
        } else {
            assert(mods =~= Seq::<Seq<char>>::empty());
        }
        i += 1;
    }
    deps
}

// ---------------------------------------------------------------------------
// Parameters
// ---------------------------------------------------------------------------

pub proof fn lemma_named_children_range(t: Seq<NodeView>, i: int, j: int)
    requires
        0 <= j,
    ensures
        forall|k: int| 0 <= k < named_children_from(t, i, j).len() ==> j <= #[trigger] named_children_from(t, i, j)[k] < t.len(),
    decreases t.len() - j,
{
    if !(j < 0 || j >= t.len() || t[j].depth <= t[i].depth) {
        lemma_named_children_range(t, i, j + 1);
        let rest = named_children_from(t, i, j + 1);
        if t[j].depth == t[i].depth + 1 && t[j].named {
            assert forall|k: int| 0 <= k < named_children_from(t, i, j).len() implies j <= #[trigger] named_children_from(t, i, j)[k] < t.len() by {
                if k > 0 {
                    assert(named_children_from(t, i, j)[k] == rest[k - 1]);
                }
            }
        }
    }
}

/// A parameter's name: a separator's own text; its `name` child's text;
/// else the first non-empty name among its named children that are not
/// types; else its own text.
pub open spec fn param_name(t: Seq<NodeView>, src: Seq<u8>, i: int) -> Seq<char>
    decreases 2 * (t.len() - i) + 1, 0int,
{
    if i < 0 || i >= t.len() {
        Seq::empty()
    } else if t[i].kind == "positional_separator"@ || t[i].kind == "keyword_separator"@ {
        node_text(src, t[i])
    } else {
        match field_text(t, src, i, "name"@) {
            Some(x) => x,
            None => match param_name_in(t, src, i, named_children(t, i)) {
                Some(x) => x,
                None => node_text(src, t[i]),
            },
        }
    }
}

/// The first non-empty parameter name among `kids` (children of `p`) that
/// are not types.
pub open spec fn param_name_in(t: Seq<NodeView>, src: Seq<u8>, p: int, kids: Seq<int>) -> Option<Seq<char>>
    decreases 2 * (t.len() - p), kids.len(),
{
    if kids.len() == 0 || p < 0 || !(p < kids[0] < t.len()) {
        None
    } else if t[kids[0]].kind != "type"@ && param_name(t, src, kids[0]).len() > 0 {
        Some(param_name(t, src, kids[0]))
    } else {
        param_name_in(t, src, p, kids.skip(1))
    }
}

/// The parameters of a parameter list: each named child's name and its
/// trimmed text.
pub open spec fn py_params_at(t: Seq<NodeView>, src: Seq<u8>, p: Option<int>) -> Seq<(Seq<char>, Seq<char>)> {
    match p {
        Some(x) => {
            let kids = named_children(t, x);
            Seq::new(kids.len(), |q: int| (param_name(t, src, kids[q]), trim_spec(node_text(src, t[kids[q]]))))
        },
        None => Seq::empty(),
    }
}

fn param_name_of(t: &Vec<SyntaxNode>, src: &[u8], i: usize) -> (r: String)
    requires
        i < t@.len(),
    ensures
        r@ == param_name(nodes_view(t@), src@, i as int),
    decreases t@.len() - i,
{
    let ghost tv = nodes_view(t@);
    assert(tv[i as int] == t@[i as int]@);
    let kind = t[i].kind.as_str();
    if str_eq(kind, "positional_separator") || str_eq(kind, "keyword_separator") {
        return text_of(src, &t[i]);
    }
    match field_text_of(t, src, i, "name") {
        Some(x) => {
            return x;
        },
        None => {},
    }
    let kids = named_children_of(t, i);
    let ghost ks = named_children(tv, i as int);
    proof {
        lemma_named_children_range(tv, i as int, i + 1);
    }
    let mut k: usize = 0;
    assert(ks.skip(0) =~= ks);
    while k < kids.len()
        invariant
            k <= kids@.len(),
            i < t@.len(),
            tv == nodes_view(t@),
            ks == named_children(tv, i as int),
            kids@.len() == ks.len(),
            field_text(tv, src@, i as int, "name"@) is None,
            tv[i as int].kind != "positional_separator"@ && tv[i as int].kind != "keyword_separator"@,
            forall|q: int| 0 <= q < kids@.len() ==> kids@[q] as int == ks[q] && #[trigger] kids@[q] < t@.len(),
            forall|q: int| 0 <= q < ks.len() ==> i + 1 <= #[trigger] ks[q] < t@.len(),
            param_name_in(tv, src@, i as int, ks.skip(k as int)) == param_name_in(tv, src@, i as int, ks),
        decreases kids@.len() - k,
    {
        let c = kids[k];
        assert(ks.skip(k as int)[0] == c as int);
        assert(ks.skip(k as int).skip(1) =~= ks.skip(k + 1));
        assert(tv[c as int] == t@[c as int]@);
        if !str_eq(t[c].kind.as_str(), "type") {
            let r = param_name_of(t, src, c);
            if !r.as_str().is_empty() {
                return r;
            }
        }
        k += 1;
    }
    text_of(src, &t[i])
}

/// The parameters of the parameter list `p`, when there is one.
fn py_parameters(t: &Vec<SyntaxNode>, src: &[u8], p: Option<usize>) -> (r: Vec<Parameter>)
    requires
        p matches Some(x) ==> x < t@.len(),
    ensures
        params_view(r@) == py_params_at(nodes_view(t@), src@, match p {
            Some(x) => Some(x as int),
            None => None,
        }),
{
    let ghost tv = nodes_view(t@);
    let mut out: Vec<Parameter> = Vec::new();
    match p {
        Some(x) => {
            let kids = named_children_of(t, x);
            let ghost ks = named_children(tv, x as int);
            let ghost want = Seq::new(ks.len(), |q: int| (param_name(tv, src@, ks[q]), trim_spec(node_text(src@, tv[ks[q]]))));
            let mut k: usize = 0;
            while k < kids.len()
                invariant
                    k <= kids@.len(),
                    tv == nodes_view(t@),
                    kids@.len() == ks.len(),
                    want == Seq::new(ks.len(), |q: int| (param_name(tv, src@, ks[q]), trim_spec(node_text(src@, tv[ks[q]])))),
                    forall|q: int| 0 <= q < kids@.len() ==> kids@[q] as int == ks[q] && #[trigger] kids@[q] < t@.len(),
                    params_view(out@) == want.take(k as int),
                decreases kids@.len() - k,
            {
                let c = kids[k];
                assert(tv[c as int] == t@[c as int]@);
                let name = param_name_of(t, src, c);
                let ty = trim_str(text_of(src, &t[c]).as_str());
                assert(kids@[k as int] as int == ks[k as int]);
                assert(want[k as int] == (name@, ty@));
                let ghost before = params_view(out@);
                out.push(Parameter { name, param_type: ty });
                assert(params_view(out@) =~= before.push((name@, ty@)));
                assert(params_view(out@) =~= want.take(k + 1));
                k += 1;
            }
            assert(want.take(kids@.len() as int) =~= want);
        },
        None => {
            assert(params_view(out@) =~= Seq::<(Seq<char>, Seq<char>)>::empty());
        },
    }
    out
}

// ---------------------------------------------------------------------------
// Generators
// ---------------------------------------------------------------------------

pub open spec fn is_py_declaration(k: Seq<char>) -> bool {
    k == "function_definition"@ || k == "class_definition"@ || k == "type_alias_statement"@ || k == "decorated_definition"@
}

/// The walk over the descendants of a node at depth `root_d` from node `j`
/// on, not into declarations: whether it meets a `yield`.
pub open spec fn yield_scan(t: Seq<NodeView>, root_d: usize, j: int, skip: Option<usize>) -> bool
    decreases t.len() - j,
{
    if j < 0 || j >= t.len() || t[j].depth <= root_d {
        false
    } else if skipped(t, j, skip) {
        yield_scan(t, root_d, j + 1, skip)
    } else if is_py_declaration(t[j].kind) {
        yield_scan(t, root_d, j + 1, Some(t[j].depth))
    } else if t[j].kind == "yield"@ {
        true
    } else {
        yield_scan(t, root_d, j + 1, None)
    }
}

/// Whether a function body yields: a `yield` in it outside any nested
/// declaration.
pub open spec fn contains_yield(t: Seq<NodeView>, b: int) -> bool {
    if is_py_declaration(t[b].kind) {
        false
    } else if t[b].kind == "yield"@ {
        true
    } else {
        yield_scan(t, t[b].depth, b + 1, None)
    }
}

fn is_py_declaration_exec(k: &str) -> (r: bool)
    ensures
        r == is_py_declaration(k@),
{
    str_eq(k, "function_definition") || str_eq(k, "class_definition") || str_eq(k, "type_alias_statement")
        || str_eq(k, "decorated_definition")
}

fn contains_yield_of(t: &Vec<SyntaxNode>, b: usize) -> (r: bool)
    requires
        b < t@.len(),
    ensures
        r == contains_yield(nodes_view(t@), b as int),
{
    let ghost tv = nodes_view(t@);
    assert(tv[b as int] == t@[b as int]@);
    if is_py_declaration_exec(t[b].kind.as_str()) {
        return false;
    }
    if str_eq(t[b].kind.as_str(), "yield") {
        return true;
    }
    let d = t[b].depth;
    let n = t.len();
    let mut skip: Option<usize> = None;
    let mut j = b + 1;
    while j < t.len() && t[j].depth > d
        invariant
            b < j <= t@.len(),
            tv == nodes_view(t@),
            d == tv[b as int].depth,
            yield_scan(tv, d, j as int, skip) == contains_yield(tv, b as int),
        decreases t.len() - j,
    {
        assert(tv[j as int] == t@[j as int]@);
        let skipping = match skip {
            Some(sd) => t[j].depth > sd,
            None => false,
        };
        if skipping {
        } else if is_py_declaration_exec(t[j].kind.as_str()) {
            skip = Some(t[j].depth);
        } else if str_eq(t[j].kind.as_str(), "yield") {
            return true;
        } else {
            skip = None;
        }
        j += 1;
    }
    proof {
        if j < t@.len() {
            assert(tv[j as int] == t@[j as int]@);
        }
    }
    false
}

// ---------------------------------------------------------------------------
// Assignments, classes and aliases
// ---------------------------------------------------------------------------

/// The first of `kids` of kind `k`.
pub open spec fn first_of_kind(t: Seq<NodeView>, kids: Seq<int>, k: Seq<char>) -> Option<int>
    decreases kids.len(),
{
    if kids.len() == 0 {
        None
    } else if t[kids[0]].kind == k {
        Some(kids[0])
    } else {
        first_of_kind(t, kids.skip(1), k)
    }
}

/// The `kids` of kind `k`, in order.
pub open spec fn all_of_kind(t: Seq<NodeView>, kids: Seq<int>, k: Seq<char>) -> Seq<int>
    decreases kids.len(),
{
    if kids.len() == 0 {
        Seq::empty()
    } else if t[kids.last()].kind == k {
        all_of_kind(t, kids.drop_last(), k).push(kids.last())
    } else {
        all_of_kind(t, kids.drop_last(), k)
    }
}

/// The assignment an expression statement holds.
pub open spec fn assignment_of(t: Seq<NodeView>, c: int) -> Option<int> {
    if t[c].kind == "expression_statement"@ {
        first_of_kind(t, named_children(t, c), "assignment"@)
    } else {
        None
    }
}

pub open spec fn is_alias_annotation(s: Seq<char>) -> bool {
    s == "TypeAlias"@ || s == "typing.TypeAlias"@
}

/// An assignment annotated `TypeAlias` (PEP 613).
pub open spec fn is_pep613(t: Seq<NodeView>, src: Seq<u8>, d: int) -> bool {
    match assignment_of(t, d) {
        Some(a) => match field_text(t, src, a, "type"@) {
            Some(ty) => is_alias_annotation(trim_spec(ty)),
            None => false,
        },
        None => false,
    }
}

/// An assignment of a lambda to a plain name.
pub open spec fn is_named_lambda(t: Seq<NodeView>, d: int) -> bool {
    match assignment_of(t, d) {
        Some(a) => {
            &&& match field_child(t, a, "left"@) {
                Some(l) => t[l].kind == "identifier"@,
                None => false,
            }
            &&& match field_child(t, a, "right"@) {
                Some(r) => t[r].kind == "lambda"@,
                None => false,
            }
        },
        None => false,
    }
}

/// The (statement, assignment) pairs among `kids`.
pub open spec fn assignments_in(t: Seq<NodeView>, kids: Seq<int>) -> Seq<(int, int)>
    decreases kids.len(),
{
    if kids.len() == 0 {
        Seq::empty()
    } else {
        let prev = assignments_in(t, kids.drop_last());
        match assignment_of(t, kids.last()) {
            Some(a) => prev.push((kids.last(), a)),
            None => prev,
        }
    }
}

/// The assignment statements of a class's body.
pub open spec fn class_assignments(t: Seq<NodeView>, d: int) -> Seq<(int, int)> {
    match field_child(t, d, "body"@) {
        Some(b) => assignments_in(t, named_children(t, b)),
        None => Seq::empty(),
    }
}

/// A property's type: its annotation, empty when there is none or it is
/// `TypeAlias`.
pub open spec fn property_type(t: Seq<NodeView>, src: Seq<u8>, a: int) -> Seq<char> {
    match field_text(t, src, a, "type"@) {
        Some(ty) => if is_alias_annotation(trim_spec(ty)) {
            Seq::empty()
        } else {
            ty
        },
        None => Seq::empty(),
    }
}

pub open spec fn assigns_name(t: Seq<NodeView>, a: int) -> bool {
    match field_child(t, a, "left"@) {
        Some(l) => t[l].kind == "identifier"@,
        None => false,
    }
}

/// The properties the assignments `ps` give: each plain name assigned,
/// with its type.
pub open spec fn class_props(t: Seq<NodeView>, src: Seq<u8>, ps: Seq<(int, int)>) -> Seq<(Seq<char>, Seq<char>)>
    decreases ps.len(),
{
    if ps.len() == 0 {
        Seq::empty()
    } else {
        let prev = class_props(t, src, ps.drop_last());
        let a = ps.last().1;
        if assigns_name(t, a) {
            prev.push((node_text(src, t[field_child(t, a, "left"@)->0]), property_type(t, src, a)))
        } else {
            prev
        }
    }
}

/// Whether an assignment is a property line of its class: a plain name,
/// not annotated `TypeAlias`.
pub open spec fn is_property_line(t: Seq<NodeView>, src: Seq<u8>, a: int) -> bool {
    assigns_name(t, a) && match field_text(t, src, a, "type"@) {
        Some(ty) => !is_alias_annotation(trim_spec(ty)),
        None => true,
    }
}

/// The statement texts of the property lines among `ps`.
pub open spec fn class_lines(t: Seq<NodeView>, src: Seq<u8>, ps: Seq<(int, int)>) -> Seq<Seq<char>>
    decreases ps.len(),
{
    if ps.len() == 0 {
        Seq::empty()
    } else {
        let prev = class_lines(t, src, ps.drop_last());
        if is_property_line(t, src, ps.last().1) {
            prev.push(node_text(src, t[ps.last().0]))
        } else {
            prev
        }
    }
}

/// A class's chunk text: the text of its wrapper `w` up to its body, end
/// trimmed, and then its property lines, one per line (the header alone
/// when it has no properties; the whole text when it has no body).
pub open spec fn py_class_code(t: Seq<NodeView>, src: Seq<u8>, d: int, w: int) -> Seq<char> {
    match field_child(t, d, "body"@) {
        Some(b) => {
            let header = trim_end_spec(slice_text(src, t[w].start, t[b].start));
            let ps = class_assignments(t, d);
            if class_props(t, src, ps).len() == 0 {
                header
            } else {
                join(seq![header] + class_lines(t, src, ps), "\n"@)
            }
        },
        None => node_text(src, t[w]),
    }
}

/// `s` without its leading `c`s.
pub open spec fn strip_leading(s: Seq<char>, c: char) -> Seq<char>
    decreases s.len(),
{
    if s.len() > 0 && s[0] == c {
        strip_leading(s.skip(1), c)
    } else {
        s
    }
}

/// A class's bases: its superclass list without the parentheses.
pub open spec fn py_bases(t: Seq<NodeView>, src: Seq<u8>, d: int) -> Option<Seq<char>> {
    match field_text(t, src, d, "superclasses"@) {
        Some(x) => Some(crate::weburl::strip_trailing(strip_leading(trim_spec(x), '('), ')')),
        None => None,
    }
}

/// The `type` children of a type alias statement.
pub open spec fn alias_types(t: Seq<NodeView>, d: int) -> Seq<int> {
    all_of_kind(t, named_children(t, d), "type"@)
}

pub open spec fn first_named(t: Seq<NodeView>, i: int) -> Option<int> {
    if named_children(t, i).len() > 0 {
        Some(named_children(t, i)[0])
    } else {
        None
    }
}

/// An alias's name from its first `type` child: the first named child of
/// that child's first named child, else that first named child, else the
/// `type` child itself.
pub open spec fn alias_name_of(t: Seq<NodeView>, src: Seq<u8>, ty: int) -> Seq<char> {
    match first_named(t, ty) {
        Some(f) => match first_named(t, f) {
            Some(inner) => node_text(src, t[inner]),
            None => node_text(src, t[f]),
        },
        None => node_text(src, t[ty]),
    }
}

// ---------------------------------------------------------------------------
// The scope walk
// ---------------------------------------------------------------------------

/// A declaration met walking the scopes: the declaration node, the node
/// standing for it in its scope (its decorated wrapper, or itself), the
/// enclosing class's name, and whether it sits directly in a class body.
pub struct PyItem {
    pub decl: int,
    pub wrapper: int,
    pub class_name: Option<Seq<char>>,
    pub in_class: bool,
}

/// The declaration a scope statement stands for: a decorated definition's
/// `definition`, else the statement itself.
pub open spec fn unwrap_decl(t: Seq<NodeView>, c: int) -> Option<int> {
    if t[c].kind == "decorated_definition"@ {
        field_child(t, c, "definition"@)
    } else {
        Some(c)
    }
}

/// Declarations whose scope is not walked into.
pub open spec fn is_leaf_decl(t: Seq<NodeView>, src: Seq<u8>, d: int) -> bool {
    t[d].kind == "type_alias_statement"@ || is_pep613(t, src, d) || is_named_lambda(t, d)
}

/// The declarations met walking the named children of node `i` in order
/// (see `py_items_in`).
pub open spec fn py_items(t: Seq<NodeView>, src: Seq<u8>, i: int, cls: Option<Seq<char>>, in_class: bool) -> Seq<PyItem>
    decreases 2 * (t.len() - i) + 1, 0int,
{
    if i < 0 || i >= t.len() {
        Seq::empty()
    } else {
        py_items_in(t, src, i, named_children(t, i), cls, in_class)
    }
}

/// The declarations met walking `kids` (children of `p`) in order.
pub open spec fn py_items_in(t: Seq<NodeView>, src: Seq<u8>, p: int, kids: Seq<int>, cls: Option<Seq<char>>, in_class: bool) -> Seq<PyItem>
    decreases 2 * (t.len() - p), kids.len(),
{
    if kids.len() == 0 || p < 0 || !(p < kids[0] < t.len()) {
        Seq::empty()
    } else {
        py_here(t, src, p, kids[0], cls, in_class) + py_items_in(t, src, p, kids.skip(1), cls, in_class)
    }
}

/// The declarations met at the scope statement `c` (a child of `p`): a
/// function is met and then its body walked (not as a class body); a class
/// is met and its body walked as the body of that class; an alias or named
/// lambda is met; any other statement is walked into.
pub open spec fn py_here(t: Seq<NodeView>, src: Seq<u8>, p: int, c: int, cls: Option<Seq<char>>, in_class: bool) -> Seq<PyItem>
    decreases 2 * (t.len() - p), 0int,
{
    if p < 0 || !(p < c < t.len()) {
        Seq::empty()
    } else {
        match unwrap_decl(t, c) {
            Some(d) => if c <= d < t.len() {
                let item = PyItem { decl: d, wrapper: c, class_name: cls, in_class };
                if t[d].kind == "function_definition"@ {
                    seq![item] + match field_child(t, d, "body"@) {
                        Some(b) => if d < b < t.len() {
                            py_items(t, src, b, cls, false)
                        } else {
                            Seq::empty()
                        },
                        None => Seq::empty(),
                    }
                } else if t[d].kind == "class_definition"@ {
                    seq![item] + match field_child(t, d, "body"@) {
                        Some(b) => if d < b < t.len() {
                            py_items(t, src, b, field_trimmed(t, src, d, "name"@), true)
                        } else {
                            Seq::empty()
                        },
                        None => Seq::empty(),
                    }
                } else if is_leaf_decl(t, src, d) {
                    seq![item]
                } else {
                    py_items(t, src, d, cls, in_class)
                }
            } else {
                Seq::empty()
            },
            None => Seq::empty(),
        }
    }
}

// ---------------------------------------------------------------------------
// Chunks
// ---------------------------------------------------------------------------

/// The decorators of a decorated declaration: the trimmed text of each of
/// its wrapper's decorator children.
pub open spec fn decorators_of(t: Seq<NodeView>, src: Seq<u8>, it: PyItem) -> Seq<Seq<char>> {
    if it.wrapper != it.decl {
        let ds = all_of_kind(t, named_children(t, it.wrapper), "decorator"@);
        Seq::new(ds.len(), |q: int| trim_spec(node_text(src, t[ds[q]])))
    } else {
        Seq::empty()
    }
}

/// Whether a met declaration gives a chunk: a function or class with a
/// name, an alias statement with two types, a `TypeAlias` assignment to a
/// target, a named lambda.
pub open spec fn produces_chunk(t: Seq<NodeView>, src: Seq<u8>, it: PyItem) -> bool {
    let d = it.decl;
    if t[d].kind == "function_definition"@ || t[d].kind == "class_definition"@ {
        field_child(t, d, "name"@) is Some
    } else if t[d].kind == "type_alias_statement"@ {
        alias_types(t, d).len() >= 2
    } else if is_pep613(t, src, d) {
        field_child(t, assignment_of(t, d)->0, "left"@) is Some
    } else {
        is_named_lambda(t, d)
    }
}

/// The chunk of a met declaration (see `produces_chunk`).
pub open spec fn is_py_item_chunk(c: CodeChunk, t: Seq<NodeView>, src: Seq<u8>, it: PyItem, file_path: Seq<char>, deps: Seq<Seq<char>>) -> bool {
    let d = it.decl;
    let w = it.wrapper;
    let k = t[d].kind;
    if k == "function_definition"@ {
        let fname = field_text(t, src, d, "name"@);
        &&& is_extracted_chunk(c, file_path, id_name(seq![fname, it.class_name, None]), node_text(src, t[w]), k, deps)
        &&& c.kind matches CodeChunkKind::Python(f) && {
            &&& opt_view(f.function_name) == fname
            &&& opt_view(f.class_name) == it.class_name
            &&& params_view(f.parameters@) == py_params_at(t, src, field_child(t, d, "parameters"@))
            &&& opt_view(f.return_type) == field_trimmed(t, src, d, "return_type"@)
            &&& f.properties@.len() == 0
            &&& views(f.decorators@) == decorators_of(t, src, it)
            &&& f.is_method == it.in_class
            &&& f.is_async == child_of_kind_from(t, d, "async"@, d + 1)
            &&& f.is_generator == match field_child(t, d, "body"@) {
                Some(b) => contains_yield(t, b),
                None => false,
            }
            &&& !f.is_type_alias && f.alias_name is None && f.alias_target is None
            &&& opt_view(f.type_parameters) == field_trimmed(t, src, d, "type_parameters"@)
            &&& f.bases is None
        }
    } else if k == "class_definition"@ {
        let cname = field_trimmed(t, src, d, "name"@);
        &&& is_extracted_chunk(c, file_path, id_name(seq![None, cname, None]), py_class_code(t, src, d, w), k, deps)
        &&& c.kind matches CodeChunkKind::Python(f) && {
            &&& f.function_name is None
            &&& opt_view(f.class_name) == cname
            &&& f.parameters@.len() == 0
            &&& f.return_type is None
            &&& params_view(f.properties@) == class_props(t, src, class_assignments(t, d))
            &&& views(f.decorators@) == decorators_of(t, src, it)
            &&& !f.is_method && !f.is_async && !f.is_generator
            &&& !f.is_type_alias && f.alias_name is None && f.alias_target is None
            &&& opt_view(f.type_parameters) == field_trimmed(t, src, d, "type_parameters"@)
            &&& opt_view(f.bases) == py_bases(t, src, d)
        }
    } else if k == "type_alias_statement"@ {
        let types = alias_types(t, d);
        let name = alias_name_of(t, src, types[0]);
        &&& is_extracted_chunk(c, file_path, id_name(seq![None, it.class_name, Some(name)]), node_text(src, t[w]), k, deps)
        &&& c.kind matches CodeChunkKind::Python(f) && {
            &&& f.function_name is None
            &&& opt_view(f.class_name) == it.class_name
            &&& f.parameters@.len() == 0
            &&& f.return_type is None
            &&& f.properties@.len() == 0
            &&& views(f.decorators@) == decorators_of(t, src, it)
            &&& !f.is_method && !f.is_async && !f.is_generator
            &&& f.is_type_alias
            &&& opt_view(f.alias_name) == Some(name)
            &&& opt_view(f.alias_target) == Some(node_text(src, t[types.last()]))
            &&& f.type_parameters is None && f.bases is None
        }
    } else {
        let a = assignment_of(t, d)->0;
        let name = node_text(src, t[field_child(t, a, "left"@)->0]);
        if is_pep613(t, src, d) {
            &&& is_extracted_chunk(c, file_path, id_name(seq![None, it.class_name, Some(name)]), node_text(src, t[d]), "type_alias_assignment"@, deps)
            &&& c.kind matches CodeChunkKind::Python(f) && {
                &&& f.function_name is None
                &&& opt_view(f.class_name) == it.class_name
                &&& f.parameters@.len() == 0
                &&& f.return_type is None
                &&& f.properties@.len() == 0
                &&& f.decorators@.len() == 0
                &&& !f.is_method && !f.is_async && !f.is_generator
                &&& f.is_type_alias
                &&& opt_view(f.alias_name) == Some(name)
                &&& opt_view(f.alias_target) == field_trimmed(t, src, a, "right"@)
                &&& f.type_parameters is None && f.bases is None
            }
        } else {
            let lam = field_child(t, a, "right"@)->0;
            &&& is_extracted_chunk(c, file_path, id_name(seq![Some(name), it.class_name, None]), node_text(src, t[d]), "lambda"@, deps)
            &&& c.kind matches CodeChunkKind::Python(f) && {
                &&& opt_view(f.function_name) == Some(name)
                &&& opt_view(f.class_name) == it.class_name
                &&& params_view(f.parameters@) == py_params_at(t, src, field_child(t, lam, "parameters"@))
                &&& f.return_type is None
                &&& f.properties@.len() == 0
                &&& f.decorators@.len() == 0
                &&& !f.is_method && !f.is_async && !f.is_generator
                &&& !f.is_type_alias && f.alias_name is None && f.alias_target is None
                &&& f.type_parameters is None && f.bases is None
            }
        }
    }
}

/// The range a met declaration takes out of the remainder: its wrapper's.
pub open spec fn item_span(t: Seq<NodeView>, it: PyItem) -> Span {
    (t[it.wrapper].start, t[it.wrapper].end)
}

pub open spec fn spans_of(t: Seq<NodeView>, items: Seq<PyItem>) -> Seq<Span> {
    Seq::new(items.len(), |k: int| item_span(t, items[k]))
}

pub open spec fn chunk_items(t: Seq<NodeView>, src: Seq<u8>, items: Seq<PyItem>) -> Seq<PyItem> {
    items.filter(|it: PyItem| produces_chunk(t, src, it))
}

/// `cs` holds the chunks of the declarations among `items` that give one,
/// in order.
pub open spec fn chunks_match(cs: Seq<CodeChunk>, t: Seq<NodeView>, src: Seq<u8>, items: Seq<PyItem>, file_path: Seq<char>, deps: Seq<Seq<char>>) -> bool {
    &&& cs.len() == chunk_items(t, src, items).len()
    &&& forall|k: int| 0 <= k < cs.len() ==> is_py_item_chunk(#[trigger] cs[k], t, src, chunk_items(t, src, items)[k], file_path, deps)
}

pub proof fn lemma_chunks_match_concat(c1: Seq<CodeChunk>, c2: Seq<CodeChunk>, t: Seq<NodeView>, src: Seq<u8>, i1: Seq<PyItem>, i2: Seq<PyItem>, file_path: Seq<char>, deps: Seq<Seq<char>>)
    requires
        chunks_match(c1, t, src, i1, file_path, deps),
        chunks_match(c2, t, src, i2, file_path, deps),
    ensures
        chunks_match(c1 + c2, t, src, i1 + i2, file_path, deps),
{
    let f = |it: PyItem| produces_chunk(t, src, it);
    Seq::filter_distributes_over_add(i1, i2, f);
    assert(chunk_items(t, src, i1 + i2) == chunk_items(t, src, i1) + chunk_items(t, src, i2));
    let cs = c1 + c2;
    assert forall|k: int| 0 <= k < cs.len() implies is_py_item_chunk(#[trigger] cs[k], t, src, chunk_items(t, src, i1 + i2)[k], file_path, deps) by {
        if k < c1.len() {
            assert(cs[k] == c1[k]);
        } else {
            assert(cs[k] == c2[k - c1.len()]);
        }
    }
}

pub proof fn lemma_chunks_match_single(cs: Seq<CodeChunk>, t: Seq<NodeView>, src: Seq<u8>, it: PyItem, file_path: Seq<char>, deps: Seq<Seq<char>>)
    requires
        produces_chunk(t, src, it) ==> cs.len() == 1 && is_py_item_chunk(cs[0], t, src, it, file_path, deps),
        !produces_chunk(t, src, it) ==> cs.len() == 0,
    ensures
        chunks_match(cs, t, src, seq![it], file_path, deps),
{
    let f = |x: PyItem| produces_chunk(t, src, x);
    reveal_with_fuel(Seq::filter, 2);
    assert(seq![it].drop_last() =~= Seq::<PyItem>::empty());
    if produces_chunk(t, src, it) {
        assert(chunk_items(t, src, seq![it]) =~= seq![it]);
    } else {
        assert(chunk_items(t, src, seq![it]) =~= Seq::<PyItem>::empty());
    }
}

/// A Python payload with nothing in it: no names, types, parameters,
/// properties or decorators, and every flag off.
pub open spec fn no_python_fields(f: PythonFields) -> bool {
    &&& f.function_name is None
    &&& f.class_name is None
    &&& f.parameters@.len() == 0
    &&& f.return_type is None
    &&& f.properties@.len() == 0
    &&& f.decorators@.len() == 0
    &&& !f.is_method && !f.is_async && !f.is_generator && !f.is_type_alias
    &&& f.alias_name is None
    &&& f.alias_target is None
    &&& f.type_parameters is None
    &&& f.bases is None
}

/// The remainder chunk of a Python file: the shared remainder chunk, of
/// Python kind with an empty payload.
pub open spec fn is_py_remainder_chunk(c: CodeChunk, src: Seq<u8>, spans: Seq<Span>, file_path: Seq<char>, deps: Seq<Seq<char>>) -> bool {
    &&& is_remainder_chunk(CodeChunk { kind: CodeChunkKind::Generic, ..c }, src, spans, file_path, deps)
    &&& c.kind matches CodeChunkKind::Python(f) && no_python_fields(f)
}

fn empty_python_fields() -> (f: PythonFields)
    ensures
        no_python_fields(f),
{
    PythonFields {
        function_name: None,
        class_name: None,
        parameters: Vec::new(),
        return_type: None,
        properties: Vec::new(),
        decorators: Vec::new(),
        is_method: false,
        is_async: false,
        is_generator: false,
        is_type_alias: false,
        alias_name: None,
        alias_target: None,
        type_parameters: None,
        bases: None,
    }
}

/// `r` holds the chunks of a parsed Python file: one per declaration the
/// scope walk meets that gives one, in order, then the remainder chunk
/// when the met declarations leave any text.
pub open spec fn py_chunks_ok(r: Seq<CodeChunk>, t: Seq<NodeView>, src: Seq<u8>, file_path: Seq<char>, deps: Seq<Seq<char>>) -> bool {
    let items = py_items(t, src, 0, None, false);
    let n = chunk_items(t, src, items).len();
    let spans = spans_of(t, items);
    &&& r.len() == n + if has_remainder(src, spans) { 1int } else { 0int }
    &&& chunks_match(r.take(n as int), t, src, items, file_path, deps)
    &&& has_remainder(src, spans) ==> is_py_remainder_chunk(r[n as int], src, spans, file_path, deps)
}

// ---------------------------------------------------------------------------
// Reading declarations
// ---------------------------------------------------------------------------

pub open spec fn ints(v: Seq<usize>) -> Seq<int> {
    Seq::new(v.len(), |q: int| v[q] as int)
}

pub open spec fn pairs_view(v: Seq<(usize, usize)>) -> Seq<(int, int)> {
    Seq::new(v.len(), |q: int| (v[q].0 as int, v[q].1 as int))
}

fn named_kids(t: &Vec<SyntaxNode>, i: usize) -> (r: Vec<usize>)
    requires
        i < t@.len(),
    ensures
        ints(r@) == named_children(nodes_view(t@), i as int),
        forall|q: int| 0 <= q < r@.len() ==> #[trigger] r@[q] < t@.len(),
{
    let r = named_children_of(t, i);
    assert(ints(r@) =~= named_children(nodes_view(t@), i as int));
    r
}

fn first_of_kind_of(t: &Vec<SyntaxNode>, kids: &Vec<usize>, k: &str) -> (r: Option<usize>)
    requires
        forall|q: int| 0 <= q < kids@.len() ==> #[trigger] kids@[q] < t@.len(),
    ensures
        match r {
            Some(c) => first_of_kind(nodes_view(t@), ints(kids@), k@) == Some(c as int) && c < t@.len(),
            None => first_of_kind(nodes_view(t@), ints(kids@), k@) is None,
        },
{
    let ghost tv = nodes_view(t@);
    let ghost ks = ints(kids@);
    let mut q: usize = 0;
    assert(ks.skip(0) =~= ks);
    while q < kids.len()
        invariant
            q <= kids@.len(),
            tv == nodes_view(t@),
            ks == ints(kids@),
            forall|z: int| 0 <= z < kids@.len() ==> #[trigger] kids@[z] < t@.len(),
            first_of_kind(tv, ks.skip(q as int), k@) == first_of_kind(tv, ks, k@),
        decreases kids@.len() - q,
    {
        let c = kids[q];
        assert(ks.skip(q as int)[0] == c as int);
        assert(ks.skip(q as int).skip(1) =~= ks.skip(q + 1));
        assert(tv[c as int] == t@[c as int]@);
        if str_eq(t[c].kind.as_str(), k) {
            return Some(c);
        }
        q += 1;
    }
    None
}

pub(crate) fn all_of_kind_of(t: &Vec<SyntaxNode>, kids: &Vec<usize>, k: &str) -> (r: Vec<usize>)
    requires
        forall|q: int| 0 <= q < kids@.len() ==> #[trigger] kids@[q] < t@.len(),
    ensures
        ints(r@) == all_of_kind(nodes_view(t@), ints(kids@), k@),
        forall|q: int| 0 <= q < r@.len() ==> #[trigger] r@[q] < t@.len(),
{
    let ghost tv = nodes_view(t@);
    let ghost ks = ints(kids@);
    let mut out: Vec<usize> = Vec::new();
    let mut q: usize = 0;
    while q < kids.len()
        invariant
            q <= kids@.len(),
            tv == nodes_view(t@),
            ks == ints(kids@),
            forall|z: int| 0 <= z < kids@.len() ==> #[trigger] kids@[z] < t@.len(),
            forall|z: int| 0 <= z < out@.len() ==> #[trigger] out@[z] < t@.len(),
            ints(out@) == all_of_kind(tv, ks.take(q as int), k@),
        decreases kids@.len() - q,
    {
        let c = kids[q];
        assert(ks.take(q + 1).drop_last() =~= ks.take(q as int));
        assert(ks.take(q + 1).last() == c as int);
        assert(tv[c as int] == t@[c as int]@);
        let ghost before = ints(out@);
        if str_eq(t[c].kind.as_str(), k) {
            out.push(c);
            assert(ints(out@) =~= before.push(c as int));
        }
        q += 1;
    }
    assert(ks.take(kids@.len() as int) =~= ks);
    out
}

fn assignment_of_of(t: &Vec<SyntaxNode>, c: usize) -> (r: Option<usize>)
    requires
        c < t@.len(),
    ensures
        match r {
            Some(a) => assignment_of(nodes_view(t@), c as int) == Some(a as int) && a < t@.len(),
            None => assignment_of(nodes_view(t@), c as int) is None,
        },
{
    assert(nodes_view(t@)[c as int] == t@[c as int]@);
    if !str_eq(t[c].kind.as_str(), "expression_statement") {
        return None;
    }
    let kids = named_kids(t, c);
    first_of_kind_of(t, &kids, "assignment")
}

fn is_alias_annotation_exec(s: &str) -> (r: bool)
    ensures
        r == is_alias_annotation(s@),
{
    str_eq(s, "TypeAlias") || str_eq(s, "typing.TypeAlias")
}

fn is_pep613_of(t: &Vec<SyntaxNode>, src: &[u8], d: usize) -> (r: bool)
    requires
        d < t@.len(),
    ensures
        r == is_pep613(nodes_view(t@), src@, d as int),
{
    match assignment_of_of(t, d) {
        Some(a) => match field_text_of(t, src, a, "type") {
            Some(ty) => is_alias_annotation_exec(trim_str(ty.as_str()).as_str()),
            None => false,
        },
        None => false,
    }
}

fn field_kind_is(t: &Vec<SyntaxNode>, a: usize, f: &str, k: &str) -> (r: bool)
    requires
        a < t@.len(),
    ensures
        r == match field_child(nodes_view(t@), a as int, f@) {
            Some(x) => nodes_view(t@)[x].kind == k@,
            None => false,
        },
{
    match field_child_of(t, a, f) {
        Some(x) => {
            assert(nodes_view(t@)[x as int] == t@[x as int]@);
            str_eq(t[x].kind.as_str(), k)
        },
        None => false,
    }
}

fn is_named_lambda_of(t: &Vec<SyntaxNode>, d: usize) -> (r: bool)
    requires
        d < t@.len(),
    ensures
        r == is_named_lambda(nodes_view(t@), d as int),
{
    match assignment_of_of(t, d) {
        Some(a) => field_kind_is(t, a, "left", "identifier") && field_kind_is(t, a, "right", "lambda"),
        None => false,
    }
}

fn class_assignments_of(t: &Vec<SyntaxNode>, d: usize) -> (r: Vec<(usize, usize)>)
    requires
        d < t@.len(),
    ensures
        pairs_view(r@) == class_assignments(nodes_view(t@), d as int),
        forall|q: int| 0 <= q < r@.len() ==> (#[trigger] r@[q]).0 < t@.len() && r@[q].1 < t@.len(),
{
    let ghost tv = nodes_view(t@);
    let mut out: Vec<(usize, usize)> = Vec::new();
    match field_child_of(t, d, "body") {
        Some(b) => {
            let kids = named_kids(t, b);
            let ghost ks = ints(kids@);
            let mut q: usize = 0;
            while q < kids.len()
                invariant
                    q <= kids@.len(),
                    tv == nodes_view(t@),
                    ks == ints(kids@),
                    forall|z: int| 0 <= z < kids@.len() ==> #[trigger] kids@[z] < t@.len(),
                    forall|z: int| 0 <= z < out@.len() ==> (#[trigger] out@[z]).0 < t@.len() && out@[z].1 < t@.len(),
                    pairs_view(out@) == assignments_in(tv, ks.take(q as int)),
                decreases kids@.len() - q,
            {
                let c = kids[q];
                assert(ks.take(q + 1).drop_last() =~= ks.take(q as int));
                assert(ks.take(q + 1).last() == c as int);
                let ghost before = pairs_view(out@);
                match assignment_of_of(t, c) {
                    Some(a) => {
                        out.push((c, a));
                        assert(pairs_view(out@) =~= before.push((c as int, a as int)));
                    },
                    None => {},
                }
                q += 1;
            }
            assert(ks.take(kids@.len() as int) =~= ks);
        },
        None => {
            assert(pairs_view(out@) =~= Seq::<(int, int)>::empty());
        },
    }
    out
}

fn property_type_of(t: &Vec<SyntaxNode>, src: &[u8], a: usize) -> (r: String)
    requires
        a < t@.len(),
    ensures
        r@ == property_type(nodes_view(t@), src@, a as int),
{
    match field_text_of(t, src, a, "type") {
        Some(ty) => if is_alias_annotation_exec(trim_str(ty.as_str()).as_str()) {
            String::new()
        } else {
            ty
        },
        None => String::new(),
    }
}

fn class_props_of(t: &Vec<SyntaxNode>, src: &[u8], ps: &Vec<(usize, usize)>) -> (r: Vec<Parameter>)
    requires
        forall|q: int| 0 <= q < ps@.len() ==> (#[trigger] ps@[q]).0 < t@.len() && ps@[q].1 < t@.len(),
    ensures
        params_view(r@) == class_props(nodes_view(t@), src@, pairs_view(ps@)),
{
    let ghost tv = nodes_view(t@);
    let ghost pv = pairs_view(ps@);
    let mut out: Vec<Parameter> = Vec::new();
    let mut q: usize = 0;
    while q < ps.len()
        invariant
            q <= ps@.len(),
            tv == nodes_view(t@),
            pv == pairs_view(ps@),
            forall|z: int| 0 <= z < ps@.len() ==> (#[trigger] ps@[z]).0 < t@.len() && ps@[z].1 < t@.len(),
            params_view(out@) == class_props(tv, src@, pv.take(q as int)),
        decreases ps@.len() - q,
    {
        let (c, a) = ps[q];
        assert(pv.take(q + 1).drop_last() =~= pv.take(q as int));
        assert(pv.take(q + 1).last() == (c as int, a as int));
        let ghost before = params_view(out@);
        match field_child_of(t, a, "left") {
            Some(l) => {
                assert(tv[l as int] == t@[l as int]@);
                if str_eq(t[l].kind.as_str(), "identifier") {
                    let name = text_of(src, &t[l]);
                    let ty = property_type_of(t, src, a);
                    out.push(Parameter { name, param_type: ty });
                    assert(params_view(out@) =~= before.push((name@, ty@)));
                }
            },
            None => {},
        }
        q += 1;
    }
    assert(pv.take(ps@.len() as int) =~= pv);
    out
}

fn class_lines_of(t: &Vec<SyntaxNode>, src: &[u8], ps: &Vec<(usize, usize)>) -> (r: Vec<String>)
    requires
        forall|q: int| 0 <= q < ps@.len() ==> (#[trigger] ps@[q]).0 < t@.len() && ps@[q].1 < t@.len(),
    ensures
        views(r@) == class_lines(nodes_view(t@), src@, pairs_view(ps@)),
{
    let ghost tv = nodes_view(t@);
    let ghost pv = pairs_view(ps@);
    let mut out: Vec<String> = Vec::new();
    let mut q: usize = 0;
    while q < ps.len()
        invariant
            q <= ps@.len(),
            tv == nodes_view(t@),
            pv == pairs_view(ps@),
            forall|z: int| 0 <= z < ps@.len() ==> (#[trigger] ps@[z]).0 < t@.len() && ps@[z].1 < t@.len(),
            views(out@) == class_lines(tv, src@, pv.take(q as int)),
        decreases ps@.len() - q,
    {
        let (c, a) = ps[q];
        assert(pv.take(q + 1).drop_last() =~= pv.take(q as int));
        assert(pv.take(q + 1).last() == (c as int, a as int));
        let named = field_kind_is(t, a, "left", "identifier");
        let plain = match field_text_of(t, src, a, "type") {
            Some(ty) => !is_alias_annotation_exec(trim_str(ty.as_str()).as_str()),
            None => true,
        };
        if named && plain {
            assert(tv[c as int] == t@[c as int]@);
            push_string(&mut out, text_of(src, &t[c]));
        }
        q += 1;
    }
    assert(pv.take(ps@.len() as int) =~= pv);
    out
}

fn py_class_code_of(t: &Vec<SyntaxNode>, src: &[u8], d: usize, w: usize) -> (r: String)
    requires
        d < t@.len(),
        w < t@.len(),
    ensures
        r@ == py_class_code(nodes_view(t@), src@, d as int, w as int),
{
    let ghost tv = nodes_view(t@);
    assert(tv[w as int] == t@[w as int]@);
    match field_child_of(t, d, "body") {
        Some(b) => {
            assert(tv[b as int] == t@[b as int]@);
            let header = string_of(&trim_end_chars(&chars_of(byte_slice_text(src, t[w].start, t[b].start).as_str())));
            let ps = class_assignments_of(t, d);
            let props = class_props_of(t, src, &ps);
            if props.len() == 0 {
                header
            } else {
                let lines = class_lines_of(t, src, &ps);
                let mut parts: Vec<String> = Vec::new();
                let ghost hv = header@;
                push_string(&mut parts, header);
                let mut more = lines;
                let ghost lv = views(more@);
                let ghost first = views(parts@);
                crate::seqtext::append_strings(&mut parts, &more);
                assert(views(parts@) =~= seq![hv] + lv);
                join_strings(&parts, "\n")
            }
        },
        None => text_of(src, &t[w]),
    }
}

fn strip_leading_str(s: &str, c: char) -> (r: String)
    ensures
        r@ == strip_leading(s@, c),
{
    let v = chars_of(s);
    let mut i: usize = 0;
    assert(v@.skip(0) =~= v@);
    while i < v.len() && v[i] == c
        invariant
            i <= v@.len(),
            strip_leading(v@.skip(i as int), c) == strip_leading(v@, c),
        decreases v@.len() - i,
    {
        assert(v@.skip(i as int)[0] == v@[i as int]);
        assert(v@.skip(i as int).skip(1) =~= v@.skip(i + 1));
        i += 1;
    }
    let r = string_of_range(&v, i, v.len());
    assert(r@ =~= v@.skip(i as int));
    r
}

fn py_bases_of(t: &Vec<SyntaxNode>, src: &[u8], d: usize) -> (r: Option<String>)
    requires
        d < t@.len(),
    ensures
        opt_view(r) == py_bases(nodes_view(t@), src@, d as int),
{
    match field_text_of(t, src, d, "superclasses") {
        Some(x) => {
            let a = strip_leading_str(trim_str(x.as_str()).as_str(), '(');
            Some(crate::weburl::strip_trailing_str(a.as_str(), ')'))
        },
        None => None,
    }
}

fn first_named_of(t: &Vec<SyntaxNode>, i: usize) -> (r: Option<usize>)
    requires
        i < t@.len(),
    ensures
        match r {
            Some(c) => first_named(nodes_view(t@), i as int) == Some(c as int) && c < t@.len(),
            None => first_named(nodes_view(t@), i as int) is None,
        },
{
    let kids = named_kids(t, i);
    if kids.len() > 0 {
        assert(ints(kids@)[0] == kids@[0] as int);
        Some(kids[0])
    } else {
        None
    }
}

fn alias_name_exec(t: &Vec<SyntaxNode>, src: &[u8], ty: usize) -> (r: String)
    requires
        ty < t@.len(),
    ensures
        r@ == alias_name_of(nodes_view(t@), src@, ty as int),
{
    let ghost tv = nodes_view(t@);
    match first_named_of(t, ty) {
        Some(f) => match first_named_of(t, f) {
            Some(inner) => {
                assert(tv[inner as int] == t@[inner as int]@);
                text_of(src, &t[inner])
            },
            None => {
                assert(tv[f as int] == t@[f as int]@);
                text_of(src, &t[f])
            },
        },
        None => {
            assert(tv[ty as int] == t@[ty as int]@);
            text_of(src, &t[ty])
        },
    }
}

fn decorators_exec(t: &Vec<SyntaxNode>, src: &[u8], d: usize, w: usize) -> (r: Vec<String>)
    requires
        d < t@.len(),
        w < t@.len(),
    ensures
        views(r@) == decorators_of(nodes_view(t@), src@, PyItem { decl: d as int, wrapper: w as int, class_name: None, in_class: false }),
{
    let ghost tv = nodes_view(t@);
    let mut out: Vec<String> = Vec::new();
    if w != d {
        let kids = named_kids(t, w);
        let ds = all_of_kind_of(t, &kids, "decorator");
        let ghost dv = ints(ds@);
        let ghost want = Seq::new(dv.len(), |q: int| trim_spec(node_text(src@, tv[dv[q]])));
        let mut q: usize = 0;
        while q < ds.len()
            invariant
                q <= ds@.len(),
                tv == nodes_view(t@),
                dv == ints(ds@),
                want == Seq::new(dv.len(), |q: int| trim_spec(node_text(src@, tv[dv[q]]))),
                forall|z: int| 0 <= z < ds@.len() ==> #[trigger] ds@[z] < t@.len(),
                views(out@) == want.take(q as int),
            decreases ds@.len() - q,
        {
            let c = ds[q];
            assert(tv[c as int] == t@[c as int]@);
            push_string(&mut out, trim_str(text_of(src, &t[c]).as_str()));
            assert(views(out@) =~= want.take(q + 1));
            q += 1;
        }
        assert(want.take(ds@.len() as int) =~= want);
    } else {
        assert(views(out@) =~= Seq::<Seq<char>>::empty());
    }
    out
}

pub open spec fn opt_s(o: &Option<String>) -> Option<Seq<char>> {
    opt_view(*o)
}

/// The chunk a met declaration gives, if any (see `is_py_item_chunk`).
fn py_item_chunk(t: &Vec<SyntaxNode>, src: &[u8], d: usize, w: usize, cls: &Option<String>, in_class: bool, file_path: &str, deps: &Vec<String>) -> (r: Option<CodeChunk>)
    requires
        d < t@.len(),
        w < t@.len(),
    ensures
        ({
            let it = PyItem { decl: d as int, wrapper: w as int, class_name: opt_view(*cls), in_class };
            match r {
                Some(c) => produces_chunk(nodes_view(t@), src@, it) && is_py_item_chunk(c, nodes_view(t@), src@, it, file_path@, views(deps@)),
                None => !produces_chunk(nodes_view(t@), src@, it),
            }
        }),
{
    let ghost tv = nodes_view(t@);
    let ghost it = PyItem { decl: d as int, wrapper: w as int, class_name: opt_view(*cls), in_class };
    assert(tv[d as int] == t@[d as int]@);
    assert(tv[w as int] == t@[w as int]@);
    let kind = t[d].kind.as_str();
    proof {
        assert(params_view(Seq::<Parameter>::empty()) =~= Seq::<(Seq<char>, Seq<char>)>::empty());
        assert(views(Seq::<String>::empty()) =~= Seq::<Seq<char>>::empty());
    }
    if str_eq(kind, "function_definition") {
        if field_child_of(t, d, "name").is_none() {
            return None;
        }
        let function_name = field_text_of(t, src, d, "name");
        let parameters = py_parameters(t, src, field_child_of(t, d, "parameters"));
        let return_type = field_trimmed_of(t, src, d, "return_type");
        let decorators = decorators_exec(t, src, d, w);
        let is_async = child_of_kind(t, d, "async");
        let is_generator = match field_child_of(t, d, "body") {
            Some(b) => contains_yield_of(t, b),
            None => false,
        };
        let type_parameters = field_trimmed_of(t, src, d, "type_parameters");
        let fields = PythonFields {
            function_name,
            class_name: crate::chunk_types::copy_opt(cls),
            parameters,
            return_type,
            properties: Vec::new(),
            decorators,
            is_method: in_class,
            is_async,
            is_generator,
            is_type_alias: false,
            alias_name: None,
            alias_target: None,
            type_parameters,
            bases: None,
        };
        let c = make_python_chunk(file_path, fields, text_of(src, &t[w]), kind, deps);
        return Some(c);
    }
    if str_eq(kind, "class_definition") {
        if field_child_of(t, d, "name").is_none() {
            return None;
        }
        let class_name = field_trimmed_of(t, src, d, "name");
        let ps = class_assignments_of(t, d);
        let properties = class_props_of(t, src, &ps);
        let code = py_class_code_of(t, src, d, w);
        let decorators = decorators_exec(t, src, d, w);
        let type_parameters = field_trimmed_of(t, src, d, "type_parameters");
        let bases = py_bases_of(t, src, d);
        let fields = PythonFields {
            function_name: None,
            class_name,
            parameters: Vec::new(),
            return_type: None,
            properties,
            decorators,
            is_method: false,
            is_async: false,
            is_generator: false,
            is_type_alias: false,
            alias_name: None,
            alias_target: None,
            type_parameters,
            bases,
        };
        let c = make_python_chunk(file_path, fields, code, kind, deps);
        return Some(c);
    }
    if str_eq(kind, "type_alias_statement") {
        let kids = named_kids(t, d);
        let types = all_of_kind_of(t, &kids, "type");
        let m = types.len();
        if m < 2 {
            return None;
        }
        assert(ints(types@)[0] == types@[0] as int);
        assert(ints(types@).last() == types@[m - 1] as int);
        let name = alias_name_exec(t, src, types[0]);
        assert(tv[types@[m - 1] as int] == t@[types@[m - 1] as int]@);
        let target = text_of(src, &t[types[m - 1]]);
        let decorators = decorators_exec(t, src, d, w);
        let fields = PythonFields {
            function_name: None,
            class_name: crate::chunk_types::copy_opt(cls),
            parameters: Vec::new(),
            return_type: None,
            properties: Vec::new(),
            decorators,
            is_method: false,
            is_async: false,
            is_generator: false,
            is_type_alias: true,
            alias_name: Some(name),
            alias_target: Some(target),
            type_parameters: None,
            bases: None,
        };
        let c = make_python_chunk(file_path, fields, text_of(src, &t[w]), kind, deps);
        return Some(c);
    }
    let pep = is_pep613_of(t, src, d);
    let lam = is_named_lambda_of(t, d);
    if !pep && !lam {
        return None;
    }
    let a = match assignment_of_of(t, d) {
        Some(a) => a,
        None => {
            return None;
        },
    };
    let left = match field_child_of(t, a, "left") {
        Some(l) => l,
        None => {
            return None;
        },
    };
    assert(tv[left as int] == t@[left as int]@);
    let name = text_of(src, &t[left]);
    if pep {
        let target = field_trimmed_of(t, src, a, "right");
        let fields = PythonFields {
            function_name: None,
            class_name: crate::chunk_types::copy_opt(cls),
            parameters: Vec::new(),
            return_type: None,
            properties: Vec::new(),
            decorators: Vec::new(),
            is_method: false,
            is_async: false,
            is_generator: false,
            is_type_alias: true,
            alias_name: Some(name),
            alias_target: target,
            type_parameters: None,
            bases: None,
        };
        Some(make_python_chunk(file_path, fields, text_of(src, &t[d]), "type_alias_assignment", deps))
    } else {
        let lam_node = match field_child_of(t, a, "right") {
            Some(x) => x,
            None => {
                return None;
            },
        };
        let parameters = py_parameters(t, src, field_child_of(t, lam_node, "parameters"));
        let fields = PythonFields {
            function_name: Some(name),
            class_name: crate::chunk_types::copy_opt(cls),
            parameters,
            return_type: None,
            properties: Vec::new(),
            decorators: Vec::new(),
            is_method: false,
            is_async: false,
            is_generator: false,
            is_type_alias: false,
            alias_name: None,
            alias_target: None,
            type_parameters: None,
            bases: None,
        };
        Some(make_python_chunk(file_path, fields, text_of(src, &t[d]), "lambda", deps))
    }
}

fn is_leaf_decl_of(t: &Vec<SyntaxNode>, src: &[u8], d: usize) -> (r: bool)
    requires
        d < t@.len(),
    ensures
        r == is_leaf_decl(nodes_view(t@), src@, d as int),
{
    assert(nodes_view(t@)[d as int] == t@[d as int]@);
    str_eq(t[d].kind.as_str(), "type_alias_statement") || is_pep613_of(t, src, d) || is_named_lambda_of(t, d)
}

/// Appends a met declaration's chunk (when it gives one) and its range.
fn meet(t: &Vec<SyntaxNode>, src: &[u8], d: usize, w: usize, cls: &Option<String>, in_class: bool, file_path: &str, deps: &Vec<String>, chunks: &mut Vec<CodeChunk>, spans: &mut Vec<Span>)
    requires
        d < t@.len(),
        w < t@.len(),
    ensures
        ({
            let it = PyItem { decl: d as int, wrapper: w as int, class_name: opt_view(*cls), in_class };
            &&& final(spans)@ == old(spans)@ + spans_of(nodes_view(t@), seq![it])
            &&& final(chunks)@.len() >= old(chunks)@.len()
            &&& final(chunks)@.take(old(chunks)@.len() as int) == old(chunks)@
            &&& chunks_match(final(chunks)@.skip(old(chunks)@.len() as int), nodes_view(t@), src@, seq![it], file_path@, views(deps@))
        }),
{
    let ghost tv = nodes_view(t@);
    let ghost it = PyItem { decl: d as int, wrapper: w as int, class_name: opt_view(*cls), in_class };
    let ghost before = chunks@;
    let ghost sbefore = spans@;
    match py_item_chunk(t, src, d, w, cls, in_class, file_path, deps) {
        Some(c) => {
            chunks.push(c);
            assert(chunks@.skip(before.len() as int) =~= seq![c]);
        },
        None => {
            assert(chunks@.skip(before.len() as int) =~= Seq::<CodeChunk>::empty());
        },
    }
    assert(chunks@.take(before.len() as int) =~= before);
    proof {
        lemma_chunks_match_single(chunks@.skip(before.len() as int), tv, src@, it, file_path@, views(deps@));
    }
    assert(tv[w as int] == t@[w as int]@);
    spans.push((t[w].start, t[w].end));
    assert(spans@ =~= sbefore + spans_of(tv, seq![it]));
}

/// Meets the function or class definition `d` standing at the scope
/// statement `c` (a child of `p`), then walks its body.
fn py_definition(t: &Vec<SyntaxNode>, src: &[u8], p: usize, c: usize, d: usize, cls: &Option<String>, in_class: bool, file_path: &str, deps: &Vec<String>, chunks: &mut Vec<CodeChunk>, spans: &mut Vec<Span>)
    requires
        p < c <= d < t@.len(),
        unwrap_decl(nodes_view(t@), c as int) == Some(d as int),
        t@[d as int].kind@ == "function_definition"@ || t@[d as int].kind@ == "class_definition"@,
    ensures
        ({
            let items = py_here(nodes_view(t@), src@, p as int, c as int, opt_view(*cls), in_class);
            &&& final(spans)@ == old(spans)@ + spans_of(nodes_view(t@), items)
            &&& final(chunks)@.len() >= old(chunks)@.len()
            &&& final(chunks)@.take(old(chunks)@.len() as int) == old(chunks)@
            &&& chunks_match(final(chunks)@.skip(old(chunks)@.len() as int), nodes_view(t@), src@, items, file_path@, views(deps@))
        }),
    decreases t@.len() - p, 0nat,
{
    let ghost tv = nodes_view(t@);
    let ghost cv = opt_view(*cls);
    let ghost cb = chunks@;
    let ghost sb = spans@;
    assert(tv[d as int] == t@[d as int]@);
    let ghost item = PyItem { decl: d as int, wrapper: c as int, class_name: cv, in_class };
    proof {
        reveal_strlit("class_definition");
        reveal_strlit("function_definition");
        assert("class_definition"@.len() != "function_definition"@.len());
    }
    let is_class = str_eq(t[d].kind.as_str(), "class_definition");
    meet(t, src, d, c, cls, in_class, file_path, deps, chunks, spans);
    let ghost cm = chunks@;
    let ghost sm = spans@;
    let ghost mut inner: Seq<PyItem> = Seq::empty();
    match field_child_of(t, d, "body") {
        Some(b) => {
            if is_class {
                let name = field_trimmed_of(t, src, d, "name");
                py_scope(t, src, b, &name, true, file_path, deps, chunks, spans);
                proof {
                    inner = py_items(tv, src@, b as int, field_trimmed(tv, src@, d as int, "name"@), true);
                }
            } else {
                py_scope(t, src, b, cls, false, file_path, deps, chunks, spans);
                proof {
                    inner = py_items(tv, src@, b as int, cv, false);
                }
            }
        },
        None => {
            assert(chunks@.skip(cm.len() as int) =~= Seq::<CodeChunk>::empty());
            assert(chunk_items(tv, src@, inner) =~= Seq::<PyItem>::empty()) by {
                reveal_with_fuel(Seq::filter, 1);
            }
            assert(spans_of(tv, inner) =~= Seq::<Span>::empty());
            assert(spans@ =~= sm + spans_of(tv, inner));
        },
    }
    proof {
        assert(py_here(tv, src@, p as int, c as int, cv, in_class) == seq![item] + inner);
        let a1 = cm.skip(cb.len() as int);
        let a2 = chunks@.skip(cm.len() as int);
        assert(chunks@.skip(cb.len() as int) =~= a1 + a2);
        lemma_chunks_match_concat(a1, a2, tv, src@, seq![item], inner, file_path@, views(deps@));
        assert(spans_of(tv, seq![item] + inner) =~= spans_of(tv, seq![item]) + spans_of(tv, inner));
        assert(chunks@.take(cb.len() as int) =~= cb);
    }
}

/// Walks the scope statement `c` (a child of `p`; see `py_here`),
/// appending the chunks and ranges of the declarations met.
fn py_kid(t: &Vec<SyntaxNode>, src: &[u8], p: usize, c: usize, cls: &Option<String>, in_class: bool, file_path: &str, deps: &Vec<String>, chunks: &mut Vec<CodeChunk>, spans: &mut Vec<Span>)
    requires
        p < c < t@.len(),
    ensures
        ({
            let items = py_here(nodes_view(t@), src@, p as int, c as int, opt_view(*cls), in_class);
            &&& final(spans)@ == old(spans)@ + spans_of(nodes_view(t@), items)
            &&& final(chunks)@.len() >= old(chunks)@.len()
            &&& final(chunks)@.take(old(chunks)@.len() as int) == old(chunks)@
            &&& chunks_match(final(chunks)@.skip(old(chunks)@.len() as int), nodes_view(t@), src@, items, file_path@, views(deps@))
        }),
    decreases t@.len() - p, 1nat,
{
    let ghost tv = nodes_view(t@);
    let ghost cv = opt_view(*cls);
    let ghost cb = chunks@;
    assert(tv[c as int] == t@[c as int]@);
    let d_opt = if str_eq(t[c].kind.as_str(), "decorated_definition") {
        field_child_of(t, c, "definition")
    } else {
        Some(c)
    };
    match d_opt {
        Some(d) => {
            proof {
                if t@[c as int].kind@ == "decorated_definition"@ {
                    lemma_field_child_bounds(tv, c as int, "definition"@, c + 1);
                }
            }
            assert(tv[d as int] == t@[d as int]@);
            let kind = t[d].kind.as_str();
            if str_eq(kind, "function_definition") || str_eq(kind, "class_definition") {
                py_definition(t, src, p, c, d, cls, in_class, file_path, deps, chunks, spans);
            } else if is_leaf_decl_of(t, src, d) {
                meet(t, src, d, c, cls, in_class, file_path, deps, chunks, spans);
                assert(py_here(tv, src@, p as int, c as int, cv, in_class) == seq![PyItem { decl: d as int, wrapper: c as int, class_name: cv, in_class }]);
            } else {
                py_scope(t, src, d, cls, in_class, file_path, deps, chunks, spans);
                assert(py_here(tv, src@, p as int, c as int, cv, in_class) == py_items(tv, src@, d as int, cv, in_class));
            }
        },
        None => {
            let ghost here: Seq<PyItem> = Seq::empty();
            assert(py_here(tv, src@, p as int, c as int, cv, in_class) == here);
            assert(chunks@.skip(cb.len() as int) =~= Seq::<CodeChunk>::empty());
            assert(chunk_items(tv, src@, here) =~= Seq::<PyItem>::empty()) by {
                reveal_with_fuel(Seq::filter, 1);
            }
            assert(spans_of(tv, here) =~= Seq::<Span>::empty());
            assert(chunks@.take(cb.len() as int) =~= cb);
        },
    }
}

/// Walks the named children of node `i` (see `py_items`), appending the
/// chunks and ranges of the declarations met.
fn py_scope(t: &Vec<SyntaxNode>, src: &[u8], i: usize, cls: &Option<String>, in_class: bool, file_path: &str, deps: &Vec<String>, chunks: &mut Vec<CodeChunk>, spans: &mut Vec<Span>)
    requires
        i < t@.len(),
    ensures
        ({
            let items = py_items(nodes_view(t@), src@, i as int, opt_view(*cls), in_class);
            &&& final(spans)@ == old(spans)@ + spans_of(nodes_view(t@), items)
            &&& final(chunks)@.len() >= old(chunks)@.len()
            &&& final(chunks)@.take(old(chunks)@.len() as int) == old(chunks)@
            &&& chunks_match(final(chunks)@.skip(old(chunks)@.len() as int), nodes_view(t@), src@, items, file_path@, views(deps@))
        }),
    decreases t@.len() - i, 2nat,
{
    let ghost tv = nodes_view(t@);
    let ghost cv = opt_view(*cls);
    let ghost c0 = chunks@;
    let ghost s0 = spans@;
    let kids = named_kids(t, i);
    let ghost ks = named_children(tv, i as int);
    proof {
        lemma_named_children_range(tv, i as int, i + 1);
    }
    let ghost mut acc: Seq<PyItem> = Seq::empty();
    let mut k: usize = 0;
    assert(ks.skip(0) =~= ks);
    assert(chunks@.skip(c0.len() as int) =~= Seq::<CodeChunk>::empty());
    assert(chunks@.take(c0.len() as int) =~= c0);
    assert(spans_of(tv, acc) =~= Seq::<Span>::empty());
    assert(chunk_items(tv, src@, acc) =~= Seq::<PyItem>::empty()) by {
        reveal_with_fuel(Seq::filter, 1);
    }
    while k < kids.len()
        invariant
            k <= kids@.len(),
            i < t@.len(),
            tv == nodes_view(t@),
            cv == opt_view(*cls),
            ks == named_children(tv, i as int),
            ks == ints(kids@),
            forall|q: int| 0 <= q < kids@.len() ==> #[trigger] kids@[q] < t@.len(),
            forall|q: int| 0 <= q < ks.len() ==> i + 1 <= #[trigger] ks[q] < t@.len(),
            acc + py_items_in(tv, src@, i as int, ks.skip(k as int), cv, in_class) == py_items_in(tv, src@, i as int, ks, cv, in_class),
            spans@ == s0 + spans_of(tv, acc),
            chunks@.len() >= c0.len(),
            chunks@.take(c0.len() as int) == c0,
            chunks_match(chunks@.skip(c0.len() as int), tv, src@, acc, file_path@, views(deps@)),
        decreases kids@.len() - k,
    {
        let c = kids[k];
        let ghost rest_kids = ks.skip(k as int);
        assert(rest_kids[0] == c as int);
        assert(rest_kids.skip(1) =~= ks.skip(k + 1));
        let ghost cb = chunks@;
        let ghost sb = spans@;
        let ghost here = py_here(tv, src@, i as int, c as int, cv, in_class);
        py_kid(t, src, i, c, cls, in_class, file_path, deps, chunks, spans);
        proof {
            assert(py_items_in(tv, src@, i as int, rest_kids, cv, in_class) == here + py_items_in(tv, src@, i as int, ks.skip(k + 1), cv, in_class));
            let old_part = cb.skip(c0.len() as int);
            let new_part = chunks@.skip(cb.len() as int);
            assert(chunks@.skip(c0.len() as int) =~= old_part + new_part);
            lemma_chunks_match_concat(old_part, new_part, tv, src@, acc, here, file_path@, views(deps@));
            assert(spans_of(tv, acc + here) =~= spans_of(tv, acc) + spans_of(tv, here));
            assert(chunks@.take(c0.len() as int) =~= c0);
            acc = acc + here;
            assert(acc + py_items_in(tv, src@, i as int, ks.skip(k + 1), cv, in_class) =~= py_items_in(tv, src@, i as int, ks, cv, in_class));
        }
        k += 1;
    }
    proof {
        assert(ks.skip(kids@.len() as int) =~= Seq::<int>::empty());
        assert(acc =~= py_items(tv, src@, i as int, cv, in_class));
    }
}

/// The chunks of a parsed Python file (see `py_chunks_ok`).
pub fn extract_chunks(nodes: &Vec<SyntaxNode>, source: &[u8], file_path: &str, deps: &Vec<String>) -> (r: Vec<CodeChunk>)
    ensures
        py_chunks_ok(r@, nodes_view(nodes@), source@, file_path@, views(deps@)),
{
    let ghost tv = nodes_view(nodes@);
    let ghost items = py_items(tv, source@, 0, None, false);
    let mut chunks: Vec<CodeChunk> = Vec::new();
    let mut spans: Vec<Span> = Vec::new();
    if nodes.len() > 0 {
        let none: Option<String> = None;
        py_scope(nodes, source, 0, &none, false, file_path, deps, &mut chunks, &mut spans);
        assert(chunks@.skip(0) =~= chunks@);
        assert(spans@ =~= spans_of(tv, items));
    } else {
        assert(items =~= Seq::<PyItem>::empty());
        assert(chunk_items(tv, source@, items) =~= Seq::<PyItem>::empty()) by {
            reveal_with_fuel(Seq::filter, 1);
        }
        assert(spans@ =~= spans_of(tv, items));
    }
    let n = chunks.len();
    let ghost made = chunks@;
    match make_remainder_chunk(source, spans.as_slice(), file_path, deps) {
        Some(rc) => {
            let ghost generic = rc;
            let mut rc = rc;
            rc.kind = CodeChunkKind::Python(empty_python_fields());
            assert(CodeChunk { kind: CodeChunkKind::Generic, ..rc } == generic);
            chunks.push(rc);
            assert(chunks@.take(n as int) =~= made);
        },
        None => {
            assert(chunks@.take(n as int) =~= made);
        },
    }
    chunks
}

/// The chunks of a Python source file, with its imports as dependencies;
/// none when the source does not parse.
pub fn chunk_python_source(source: &[u8], file_path: &str) -> (r: Vec<CodeChunk>)
    ensures
        match python_syntax_spec(source@) {
            Some(t) => py_chunks_ok(r@, t, source@, file_path@, py_deps(t, source@, t.len() as int)),
            None => r@.len() == 0,
        },
{
    match parse_python(source) {
        Some(nodes) => {
            let deps = extract_dependencies(&nodes, source);
            extract_chunks(&nodes, source, file_path, &deps)
        },
        None => Vec::new(),
    }
}

/// The modules a Python source file imports; none when it does not parse.
pub fn python_source_dependencies(source: &[u8]) -> (r: Vec<String>)
    ensures
        match python_syntax_spec(source@) {
            Some(t) => views(r@) == py_deps(t, source@, t.len() as int),
            None => r@.len() == 0,
        },
{
    match parse_python(source) {
        Some(nodes) => extract_dependencies(&nodes, source),
        None => Vec::new(),
    }
}

} // verus!
