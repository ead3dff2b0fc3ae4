//! The C# chunker: every method, interface, class, struct, record, enum
//! and delegate declaration becomes a chunk (methods of interfaces
//! excepted); a class's chunk holds its header and its properties, a
//! record's properties come from its positional parameters or its body.
use vstd::prelude::*;
use crate::syntax::{
    SyntaxNode, NodeView, nodes_view, node_text, field_child, field_text, last_at_depth, text_of,
    field_child_of, field_text_of, tracks_last, track_node,
};
use crate::rust_chunks::ancestor_at;
use crate::sql_tree::{kind_children, kind_children_of};
use crate::java_chunks::contains_string;
use crate::code_chunk::CodeChunk;
use crate::chunk_types::{CodeChunkKind, CSharpFields, Parameter, opt_view, params_view};
use crate::chunk_make::{make_csharp_chunk, is_extracted_chunk, id_name};
use crate::imports::{csharp_using, normalize_csharp_using};
use crate::sql::{first_index, first_index_exec};
use crate::text::{trim_spec, trim_chars, str_eq, chars_of, string_of, extend_range, concat_str};
use crate::seqtext::{views, join, join_strings, push_string};

verus! {

/// The nodes, in document order, of the tree tree-sitter's C# grammar
/// parses the source into; `None` when parsing gives no tree.
pub uninterp spec fn csharp_syntax_spec(source: Seq<u8>) -> Option<Seq<NodeView>>;

/// `Parser::parse` with the C# grammar, the tree walked in document order
/// with a `TreeCursor` (`kind`, `is_named`, `start_byte`, `end_byte`,
/// `field_name`, `depth` of each node). The contract names the result: a
/// function of the source alone.
#[verifier::external_body]
pub(crate) fn parse_csharp(source: &[u8]) -> (r: Option<Vec<SyntaxNode>>)
    ensures
        match r {
            Some(v) => csharp_syntax_spec(source@) == Some(nodes_view(v@)),
            None => csharp_syntax_spec(source@) is None,
        },
{
    let mut parser = tree_sitter::Parser::new();
    parser.set_language(&tree_sitter_c_sharp::LANGUAGE.into()).ok()?;
    let tree = parser.parse(source, None)?;
    let (mut c, mut out) = (tree.walk(), Vec::new());
    loop {
        let n = c.node();
        out.push(SyntaxNode { kind: n.kind().into(), named: n.is_named(), start: n.start_byte(), end: n.end_byte(), field: c.field_name().map(Into::into), depth: c.depth() as usize });
        if !c.goto_first_child() {
            while !c.goto_next_sibling() {
                if !c.goto_parent() {
                    return Some(out);
                }
            }
        }
    }
}

pub open spec fn is_cs_declaration(k: Seq<char>) -> bool {
    ||| k == "method_declaration"@
    ||| k == "interface_declaration"@
    ||| k == "class_declaration"@
    ||| k == "struct_declaration"@
    ||| k == "record_declaration"@
    ||| k == "enum_declaration"@
    ||| k == "delegate_declaration"@
}

/// The (name, type) of each of `kids` that has both.
pub open spec fn named_typed(t: Seq<NodeView>, src: Seq<u8>, kids: Seq<int>) -> Seq<(Seq<char>, Seq<char>)>
    decreases kids.len(),
{
    if kids.len() == 0 {
        Seq::empty()
    } else {
        let prev = named_typed(t, src, kids.drop_last());
        match (field_text(t, src, kids.last(), "name"@), field_text(t, src, kids.last(), "type"@)) {
            (Some(n), Some(ty)) => prev.push((n, ty)),
            _ => prev,
        }
    }
}

/// The typed parameters of a parameter list.
pub open spec fn list_params(t: Seq<NodeView>, src: Seq<u8>, pl: int) -> Seq<(Seq<char>, Seq<char>)> {
    named_typed(t, src, kind_children(t, pl, "parameter"@))
}

/// The typed parameters of node `i`'s `parameters` field.
pub open spec fn field_params(t: Seq<NodeView>, src: Seq<u8>, i: int) -> Seq<(Seq<char>, Seq<char>)> {
    match field_child(t, i, "parameters"@) {
        Some(pl) => list_params(t, src, pl),
        None => Seq::empty(),
    }
}

/// The first child of node `i` of kind `k`.
pub open spec fn first_kind_child(t: Seq<NodeView>, i: int, k: Seq<char>) -> Option<int> {
    let kids = kind_children(t, i, k);
    if kids.len() > 0 {
        Some(kids[0])
    } else {
        None
    }
}

/// The (class, interface) that owns a method (looking from depth `k` up):
/// the nearest class, struct or record gives the class, or the nearest
/// interface gives the interface; its name when it has one.
pub open spec fn method_owner(t: Seq<NodeView>, src: Seq<u8>, i: int, k: int) -> (Option<Seq<char>>, Option<Seq<char>>)
    decreases k + 1,
{
    if k < 0 {
        (None, None)
    } else {
        match last_at_depth(t, k, i) {
            Some(a) => if t[a].kind == "class_declaration"@ || t[a].kind == "struct_declaration"@ || t[a].kind == "record_declaration"@ {
                (field_text(t, src, a, "name"@), None)
            } else if t[a].kind == "interface_declaration"@ {
                (None, field_text(t, src, a, "name"@))
            } else {
                method_owner(t, src, i, k - 1)
            },
            None => method_owner(t, src, i, k - 1),
        }
    }
}

/// The class holding a class's properties: its declaration list, else the
/// class itself.
pub open spec fn property_holder(t: Seq<NodeView>, i: int) -> int {
    match first_kind_child(t, i, "declaration_list"@) {
        Some(b) => b,
        None => i,
    }
}

/// A class's chunk text: its header (its text before the first `{`,
/// trimmed) and then each property declaration's text, one per line.
pub open spec fn class_code(t: Seq<NodeView>, src: Seq<u8>, i: int) -> Seq<char> {
    let full = node_text(src, t[i]);
    let k = first_index(full, '{', 0);
    let header = if k < full.len() {
        trim_spec(full.take(k))
    } else {
        trim_spec(full)
    };
    let props = kind_children(t, property_holder(t, i), "property_declaration"@);
    header + "\n"@ + join(Seq::new(props.len(), |q: int| node_text(src, t[props[q]])), "\n"@)
}

/// A record's properties: its positional parameters, else the typed
/// property declarations of its body.
pub open spec fn record_properties(t: Seq<NodeView>, src: Seq<u8>, i: int) -> Seq<(Seq<char>, Seq<char>)> {
    match first_kind_child(t, i, "parameter_list"@) {
        Some(pl) => list_params(t, src, pl),
        None => match first_kind_child(t, i, "declaration_list"@) {
            Some(b) => named_typed(t, src, kind_children(t, b, "property_declaration"@)),
            None => Seq::empty(),
        },
    }
}

/// The fields of declaration `i`'s chunk: (class, interface, method,
/// parameters, return type, properties).
pub open spec fn cs_class(t: Seq<NodeView>, src: Seq<u8>, i: int) -> Option<Seq<char>> {
    let k = t[i].kind;
    if k == "method_declaration"@ {
        method_owner(t, src, i, t[i].depth - 1).0
    } else if k == "interface_declaration"@ {
        None
    } else {
        field_text(t, src, i, "name"@)
    }
}

pub open spec fn cs_interface(t: Seq<NodeView>, src: Seq<u8>, i: int) -> Option<Seq<char>> {
    let k = t[i].kind;
    if k == "method_declaration"@ {
        method_owner(t, src, i, t[i].depth - 1).1
    } else if k == "interface_declaration"@ {
        field_text(t, src, i, "name"@)
    } else {
        None
    }
}

pub open spec fn cs_method(t: Seq<NodeView>, src: Seq<u8>, i: int) -> Option<Seq<char>> {
    if t[i].kind == "method_declaration"@ {
        field_text(t, src, i, "name"@)
    } else {
        None
    }
}

pub open spec fn cs_params(t: Seq<NodeView>, src: Seq<u8>, i: int) -> Seq<(Seq<char>, Seq<char>)> {
    if t[i].kind == "method_declaration"@ || t[i].kind == "delegate_declaration"@ {
        field_params(t, src, i)
    } else {
        Seq::empty()
    }
}

pub open spec fn cs_return(t: Seq<NodeView>, src: Seq<u8>, i: int) -> Option<Seq<char>> {
    if t[i].kind == "method_declaration"@ || t[i].kind == "delegate_declaration"@ {
        field_text(t, src, i, "type"@)
    } else {
        None
    }
}

pub open spec fn cs_properties(t: Seq<NodeView>, src: Seq<u8>, i: int) -> Seq<(Seq<char>, Seq<char>)> {
    if t[i].kind == "class_declaration"@ {
        named_typed(t, src, kind_children(t, property_holder(t, i), "property_declaration"@))
    } else if t[i].kind == "record_declaration"@ {
        record_properties(t, src, i)
    } else {
        Seq::empty()
    }
}

pub open spec fn cs_code(t: Seq<NodeView>, src: Seq<u8>, i: int) -> Seq<char> {
    if t[i].kind == "class_declaration"@ {
        class_code(t, src, i)
    } else {
        node_text(src, t[i])
    }
}

/// Whether node `i` becomes a chunk: a declaration, unless it is a method
/// of an interface.
pub open spec fn is_cs_chunk_node(t: Seq<NodeView>, src: Seq<u8>, i: int) -> bool {
    is_cs_declaration(t[i].kind) && !(cs_interface(t, src, i) is Some && cs_method(t, src, i) is Some)
}

pub open spec fn is_cs_node_chunk(c: CodeChunk, t: Seq<NodeView>, src: Seq<u8>, i: int, file_path: Seq<char>, deps: Seq<Seq<char>>) -> bool {
    let cname = cs_class(t, src, i);
    let iname = cs_interface(t, src, i);
    let mname = cs_method(t, src, i);
    &&& is_extracted_chunk(c, file_path, id_name(seq![cname, iname, mname]), cs_code(t, src, i), t[i].kind, deps)
    &&& c.kind matches CodeChunkKind::CSharp(f) && {
        &&& opt_view(f.class_name) == cname
        &&& opt_view(f.interface_name) == iname
        &&& opt_view(f.function_name) == mname
        &&& params_view(f.parameters@) == cs_params(t, src, i)
        &&& opt_view(f.return_type) == cs_return(t, src, i)
        &&& params_view(f.properties@) == cs_properties(t, src, i)
    }
}

pub open spec fn cs_chunk_nodes(t: Seq<NodeView>, src: Seq<u8>, n: int) -> Seq<int>
    decreases n,
{
    if n <= 0 {
        Seq::empty()
    } else if is_cs_chunk_node(t, src, n - 1) {
        cs_chunk_nodes(t, src, n - 1).push(n - 1)
    } else {
        cs_chunk_nodes(t, src, n - 1)
    }
}

/// `r` holds the chunks of a parsed C# file, one per declaration in
/// document order (there is no remainder chunk).
pub open spec fn cs_chunks_ok(r: Seq<CodeChunk>, t: Seq<NodeView>, src: Seq<u8>, file_path: Seq<char>, deps: Seq<Seq<char>>) -> bool {
    let idx = cs_chunk_nodes(t, src, t.len() as int);
    &&& r.len() == idx.len()
    &&& forall|k: int| 0 <= k < idx.len() ==> is_cs_node_chunk(#[trigger] r[k], t, src, idx[k], file_path, deps)
}

/// The namespaces the first `n` nodes' `using` directives bring in, each
/// once, in document order.
pub open spec fn cs_deps(t: Seq<NodeView>, src: Seq<u8>, n: int) -> Seq<Seq<char>>
    decreases n,
{
    if n <= 0 {
        Seq::empty()
    } else {
        let prev = cs_deps(t, src, n - 1);
        if t[n - 1].kind == "using_directive"@ {
            match csharp_using(node_text(src, t[n - 1])) {
                Some(d) => if prev.contains(d) {
                    prev
                } else {
                    prev.push(d)
                },
                None => prev,
            }
        } else {
            prev
        }
    }
}

pub open spec fn ints(v: Seq<usize>) -> Seq<int> {
    Seq::new(v.len(), |q: int| v[q] as int)
}

fn named_typed_of(t: &Vec<SyntaxNode>, src: &[u8], kids: &Vec<usize>) -> (r: Vec<Parameter>)
    requires
        forall|q: int| 0 <= q < kids@.len() ==> #[trigger] kids@[q] < t@.len(),
    ensures
        params_view(r@) == named_typed(nodes_view(t@), src@, ints(kids@)),
{
    let ghost tv = nodes_view(t@);
    let ghost ks = ints(kids@);
    let mut out: Vec<Parameter> = Vec::new();
    let mut k: usize = 0;
    while k < kids.len()
        invariant
            k <= kids@.len(),
            tv == nodes_view(t@),
            ks == ints(kids@),
            forall|q: int| 0 <= q < kids@.len() ==> #[trigger] kids@[q] < t@.len(),
            params_view(out@) == named_typed(tv, src@, ks.take(k as int)),
        decreases kids.len() - k,
    {
        let j = kids[k];
        assert(ks.take(k + 1).drop_last() =~= ks.take(k as int));
        assert(ks.take(k + 1).last() == j as int);
        let ghost before = params_view(out@);
        match (field_text_of(t, src, j, "name"), field_text_of(t, src, j, "type")) {
            (Some(n), Some(ty)) => {
                out.push(Parameter { name: n, param_type: ty });
                assert(params_view(out@) =~= before.push((n@, ty@)));
            },
            _ => {},
        }
        k += 1;
    }
    assert(ks.take(kids@.len() as int) =~= ks);
    out
}

fn kind_kids(t: &Vec<SyntaxNode>, i: usize, k: &str) -> (r: Vec<usize>)
    requires
        i < t@.len(),
    ensures
        ints(r@) == kind_children(nodes_view(t@), i as int, k@),
        forall|q: int| 0 <= q < r@.len() ==> #[trigger] r@[q] < t@.len(),
{
    let r = kind_children_of(t, i, k);
    assert(ints(r@) =~= kind_children(nodes_view(t@), i as int, k@));
    r
}

fn list_params_of(t: &Vec<SyntaxNode>, src: &[u8], pl: usize) -> (r: Vec<Parameter>)
    requires
        pl < t@.len(),
    ensures
        params_view(r@) == list_params(nodes_view(t@), src@, pl as int),
{
    let kids = kind_kids(t, pl, "parameter");
    named_typed_of(t, src, &kids)
}

fn field_params_of(t: &Vec<SyntaxNode>, src: &[u8], i: usize) -> (r: Vec<Parameter>)
    requires
        i < t@.len(),
    ensures
        params_view(r@) == field_params(nodes_view(t@), src@, i as int),
{
    match field_child_of(t, i, "parameters") {
        Some(pl) => list_params_of(t, src, pl),
        None => {
            let r: Vec<Parameter> = Vec::new();
            assert(params_view(r@) =~= Seq::<(Seq<char>, Seq<char>)>::empty());
            r
        },
    }
}

fn first_kind_child_of(t: &Vec<SyntaxNode>, i: usize, k: &str) -> (r: Option<usize>)
    requires
        i < t@.len(),
    ensures
        match r {
            Some(c) => first_kind_child(nodes_view(t@), i as int, k@) == Some(c as int) && c < t@.len(),
            None => first_kind_child(nodes_view(t@), i as int, k@) is None,
        },
{
    let kids = kind_kids(t, i, k);
    if kids.len() > 0 {
        assert(ints(kids@)[0] == kids@[0] as int);
        Some(kids[0])
    } else {
        None
    }
}

fn method_owner_of(t: &Vec<SyntaxNode>, src: &[u8], last: &Vec<Option<usize>>, i: usize) -> (r: (Option<String>, Option<String>))
    requires
        i < t@.len(),
        tracks_last(nodes_view(t@), last@, i as int),
    ensures
        (opt_view(r.0), opt_view(r.1)) == method_owner(nodes_view(t@), src@, i as int, t@[i as int].depth - 1),
{
    let ghost tv = nodes_view(t@);
    assert(tv[i as int] == t@[i as int]@);
    let mut k = t[i].depth;
    while k > 0
        invariant
            k <= t@[i as int].depth,
            tv == nodes_view(t@),
            i < t@.len(),
            tracks_last(tv, last@, i as int),
            method_owner(tv, src@, i as int, k - 1) == method_owner(tv, src@, i as int, t@[i as int].depth - 1),
        decreases k,
    {
        match ancestor_at(t, last, i, k - 1) {
            Some(a) => {
                assert(tv[a as int] == t@[a as int]@);
                let kind = t[a].kind.as_str();
                if str_eq(kind, "class_declaration") || str_eq(kind, "struct_declaration") || str_eq(kind, "record_declaration") {
                    return (field_text_of(t, src, a, "name"), None);
                }
                if str_eq(kind, "interface_declaration") {
                    return (None, field_text_of(t, src, a, "name"));
                }
            },
            None => {},
        }
        k -= 1;
    }
    (None, None)
}

fn property_holder_of(t: &Vec<SyntaxNode>, i: usize) -> (r: usize)
    requires
        i < t@.len(),
    ensures
        r == property_holder(nodes_view(t@), i as int),
        r < t@.len(),
{
    match first_kind_child_of(t, i, "declaration_list") {
        Some(b) => b,
        None => i,
    }
}

proof fn lemma_first_index_range(s: Seq<char>, c: char, i: int)
    requires
        0 <= i <= s.len(),
    ensures
        i <= first_index(s, c, i) <= s.len(),
    decreases s.len() - i,
{
    if i < s.len() && s[i] != c {
        lemma_first_index_range(s, c, i + 1);
    }
}

fn class_code_of(t: &Vec<SyntaxNode>, src: &[u8], i: usize) -> (r: String)
    requires
        i < t@.len(),
    ensures
        r@ == class_code(nodes_view(t@), src@, i as int),
{
    let ghost tv = nodes_view(t@);
    assert(tv[i as int] == t@[i as int]@);
    let full = chars_of(text_of(src, &t[i]).as_str());
    let k = first_index_exec(&full, '{');
    proof {
        lemma_first_index_range(full@, '{', 0);
    }
    let header = if k < full.len() {
        let mut before: Vec<char> = Vec::new();
        extend_range(&mut before, &full, 0, k);
        assert(before@ =~= full@.take(k as int));
        string_of(&trim_chars(&before))
    } else {
        string_of(&trim_chars(&full))
    };
    let holder = property_holder_of(t, i);
    let props = kind_kids(t, holder, "property_declaration");
    let ghost want = Seq::new(props@.len(), |q: int| node_text(src@, tv[props@[q] as int]));
    let mut codes: Vec<String> = Vec::new();
    let mut q: usize = 0;
    while q < props.len()
        invariant
            q <= props@.len(),
            tv == nodes_view(t@),
            forall|z: int| 0 <= z < props@.len() ==> #[trigger] props@[z] < t@.len(),
            want == Seq::new(props@.len(), |q: int| node_text(src@, tv[props@[q] as int])),
            views(codes@) == want.take(q as int),
        decreases props.len() - q,
    {
        let j = props[q];
        assert(tv[j as int] == t@[j as int]@);
        push_string(&mut codes, text_of(src, &t[j]));
        assert(views(codes@) =~= want.take(q + 1));
        q += 1;
    }
    assert(want.take(props@.len() as int) =~= want);
    let ghost pk = kind_children(tv, property_holder(tv, i as int), "property_declaration"@);
    assert(want =~= Seq::new(pk.len(), |z: int| node_text(src@, tv[pk[z]])));
    let head = concat_str(header.as_str(), "\n");
    concat_str(head.as_str(), join_strings(&codes, "\n").as_str())
}

fn record_properties_of(t: &Vec<SyntaxNode>, src: &[u8], i: usize) -> (r: Vec<Parameter>)
    requires
        i < t@.len(),
    ensures
        params_view(r@) == record_properties(nodes_view(t@), src@, i as int),
{
    match first_kind_child_of(t, i, "parameter_list") {
        Some(pl) => list_params_of(t, src, pl),
        None => match first_kind_child_of(t, i, "declaration_list") {
            Some(b) => {
                let kids = kind_kids(t, b, "property_declaration");
                named_typed_of(t, src, &kids)
            },
            None => {
                let r: Vec<Parameter> = Vec::new();
                assert(params_view(r@) =~= Seq::<(Seq<char>, Seq<char>)>::empty());
                r
            },
        },
    }
}

fn is_cs_declaration_exec(k: &str) -> (r: bool)
    ensures
        r == is_cs_declaration(k@),
{
    str_eq(k, "method_declaration") || str_eq(k, "interface_declaration") || str_eq(k, "class_declaration")
        || str_eq(k, "struct_declaration") || str_eq(k, "record_declaration") || str_eq(k, "enum_declaration")
        || str_eq(k, "delegate_declaration")
}

/// The chunk of declaration `i`, or `None` for a method of an interface.
fn cs_chunk_of(t: &Vec<SyntaxNode>, src: &[u8], last: &Vec<Option<usize>>, i: usize, file_path: &str, deps: &Vec<String>) -> (r: Option<CodeChunk>)
    requires
        i < t@.len(),
        tracks_last(nodes_view(t@), last@, i as int),
        is_cs_declaration(t@[i as int].kind@),
    ensures
        match r {
            Some(c) => is_cs_chunk_node(nodes_view(t@), src@, i as int) && is_cs_node_chunk(c, nodes_view(t@), src@, i as int, file_path@, views(deps@)),
            None => !is_cs_chunk_node(nodes_view(t@), src@, i as int),
        },
{
    let ghost tv = nodes_view(t@);
    assert(tv[i as int] == t@[i as int]@);
    let kind = t[i].kind.as_str();
    let is_method = str_eq(kind, "method_declaration");
    let is_delegate = str_eq(kind, "delegate_declaration");
    let (class_name, interface_name) = if is_method {
        method_owner_of(t, src, last, i)
    } else if str_eq(kind, "interface_declaration") {
        (None, field_text_of(t, src, i, "name"))
    } else {
        (field_text_of(t, src, i, "name"), None)
    };
    let function_name = if is_method {
        field_text_of(t, src, i, "name")
    } else {
        None
    };
    if interface_name.is_some() && function_name.is_some() {
        return None;
    }
    let parameters = if is_method || is_delegate {
        field_params_of(t, src, i)
    } else {
        Vec::new()
    };
    let return_type = if is_method || is_delegate {
        field_text_of(t, src, i, "type")
    } else {
        None
    };
    let properties = if str_eq(kind, "class_declaration") {
        let holder = property_holder_of(t, i);
        let kids = kind_kids(t, holder, "property_declaration");
        named_typed_of(t, src, &kids)
    } else if str_eq(kind, "record_declaration") {
        record_properties_of(t, src, i)
    } else {
        Vec::new()
    };
    let code = if str_eq(kind, "class_declaration") {
        class_code_of(t, src, i)
    } else {
        text_of(src, &t[i])
    };
    proof {
        assert(params_view(Seq::<Parameter>::empty()) =~= Seq::<(Seq<char>, Seq<char>)>::empty());
    }
    let fields = CSharpFields { class_name, interface_name, function_name, parameters, return_type, properties };
    let c = make_csharp_chunk(file_path, fields, code, kind, deps);
    Some(c)
}

/// The chunks of a parsed C# file, one per declaration in document order
/// (see `is_cs_chunk_node`).
pub fn extract_chunks(nodes: &Vec<SyntaxNode>, source: &[u8], file_path: &str, deps: &Vec<String>) -> (r: Vec<CodeChunk>)
    ensures
        cs_chunks_ok(r@, nodes_view(nodes@), source@, file_path@, views(deps@)),
{
    let ghost tv = nodes_view(nodes@);
    let mut chunks: Vec<CodeChunk> = Vec::new();
    let mut last: Vec<Option<usize>> = Vec::new();
    let mut i: usize = 0;
    while i < nodes.len()
        invariant
            i <= nodes@.len(),
            tv == nodes_view(nodes@),
            tracks_last(tv, last@, i as int),
            chunks@.len() == cs_chunk_nodes(tv, source@, i as int).len(),
            forall|k: int| 0 <= k < chunks@.len() ==> is_cs_node_chunk(#[trigger] chunks@[k], tv, source@, cs_chunk_nodes(tv, source@, i as int)[k], file_path@, views(deps@)),
        decreases nodes.len() - i,
    {
        assert(tv[i as int] == nodes@[i as int]@);
        let ghost prev = chunks@;
        let ghost prev_idx = cs_chunk_nodes(tv, source@, i as int);
        let made = if is_cs_declaration_exec(nodes[i].kind.as_str()) {
            cs_chunk_of(nodes, source, &last, i, file_path, deps)
        } else {
            None
        };
        match made {
            Some(c) => {
                chunks.push(c);
                assert(cs_chunk_nodes(tv, source@, i + 1) == prev_idx.push(i as int));
                assert forall|k: int| 0 <= k < chunks@.len() implies is_cs_node_chunk(#[trigger] chunks@[k], tv, source@, cs_chunk_nodes(tv, source@, i + 1)[k], file_path@, views(deps@)) by {
                    if k < prev.len() {
                        assert(chunks@[k] == prev[k]);
                    }
                }
            },
            None => {
                assert(cs_chunk_nodes(tv, source@, i + 1) == prev_idx);
            },
        }
        track_node(nodes, &mut last, i);
        i += 1;
    }
    chunks
}

/// The namespaces a parsed C# file's `using` directives bring in, each
/// once, in document order.
pub fn extract_dependencies(nodes: &Vec<SyntaxNode>, source: &[u8]) -> (r: Vec<String>)
    ensures
        views(r@) == cs_deps(nodes_view(nodes@), source@, nodes@.len() as int),
{
    let ghost tv = nodes_view(nodes@);
    let mut deps: Vec<String> = Vec::new();
    let mut i: usize = 0;
    while i < nodes.len()
        invariant
            i <= nodes@.len(),
            tv == nodes_view(nodes@),
            views(deps@) == cs_deps(tv, source@, i as int),
        decreases nodes.len() - i,
    {
        assert(tv[i as int] == nodes@[i as int]@);
        if str_eq(nodes[i].kind.as_str(), "using_directive") {
            match normalize_csharp_using(text_of(source, &nodes[i]).as_str()) {
                Some(d) => {
                    if !contains_string(&deps, d.as_str()) {
                        push_string(&mut deps, d);
                    }
                },
                None => {},
            }
        }
        i += 1;
    }
    deps
}

/// The chunks of a C# source file, with its `using` namespaces as
/// dependencies; none when the source does not parse.
pub fn chunk_csharp_source(source: &[u8], file_path: &str) -> (r: Vec<CodeChunk>)
    ensures
        match csharp_syntax_spec(source@) {
            Some(t) => cs_chunks_ok(r@, t, source@, file_path@, cs_deps(t, source@, t.len() as int)),
            None => r@.len() == 0,
        },
{
    match parse_csharp(source) {
        Some(nodes) => {
            let deps = extract_dependencies(&nodes, source);
            extract_chunks(&nodes, source, file_path, &deps)
        },
        None => Vec::new(),
    }
}

} // verus!
