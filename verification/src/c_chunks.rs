//! The C chunker, and the declarator and parameter reading it shares with
//! the C++ chunker: every function definition becomes a chunk with its
//! name, parameters and return type; what the chunks leave of the file
//! becomes the remainder chunk; the included headers are the dependencies.
use vstd::prelude::*;
use crate::syntax::{
    SyntaxNode, NodeView, nodes_view, node_text, field_child, field_text, named_children,
    text_of, field_child_of, field_text_of, named_children_of, lemma_field_child_bounds,
};
use crate::java_chunks::{is_remainder_chunk, has_remainder, contains_string};
use crate::code_chunk::CodeChunk;
use crate::chunk_types::{CodeChunkKind, CFields, Parameter, opt_view, params_view};
use crate::chunk_make::{make_c_chunk, is_extracted_chunk, id_name};
use crate::imports::{include_target, normalize_include_target, param_type_text, extract_param_type_from_text};
use crate::spans::Span;
use crate::sql::{make_remainder_chunk, first_index, first_index_exec};
use crate::text::{
    trim_spec, trim_end_spec, trim_str, trim_chars, trim_end_chars, str_eq, is_ws, is_whitespace,
    chars_of, string_of, string_of_range, extend_range, lemma_trim_start_index_bounds,
    lemma_trim_end_index_bounds,
};
use crate::seqtext::{views, push_string};
use crate::chunk_helpers::{find_from, find_subseq, lemma_find_from_bounds};
use crate::text::occurs_at;

verus! {

// ---------------------------------------------------------------------------
// Declarators
// ---------------------------------------------------------------------------

pub open spec fn is_name_kind(k: Seq<char>) -> bool {
    k == "identifier"@ || k == "field_identifier"@ || k == "type_identifier"@
}

pub open spec fn is_param_kind(k: Seq<char>) -> bool {
    k == "parameter_list"@ || k == "parameter_declaration"@
}

/// Whether node `j` lies in the subtree of a node at depth `skip` that the
/// walk leaves out.
pub open spec fn skipped(t: Seq<NodeView>, j: int, skip: Option<usize>) -> bool {
    match skip {
        Some(sd) => t[j].depth > sd,
        None => false,
    }
}

/// The walk over the descendants of a node at depth `root_d`, from node
/// `j` on, through named children only and not into parameter lists:
/// the last identifier met (`best` so far).
pub open spec fn decl_name_scan(t: Seq<NodeView>, src: Seq<u8>, root_d: usize, j: int, skip: Option<usize>, best: Option<Seq<char>>) -> Option<Seq<char>>
    decreases t.len() - j,
{
    if j < 0 || j >= t.len() || t[j].depth <= root_d {
        best
    } else if skipped(t, j, skip) {
        decl_name_scan(t, src, root_d, j + 1, skip, best)
    } else if !t[j].named || is_param_kind(t[j].kind) {
        decl_name_scan(t, src, root_d, j + 1, Some(t[j].depth), best)
    } else if is_name_kind(t[j].kind) {
        decl_name_scan(t, src, root_d, j + 1, None, Some(node_text(src, t[j])))
    } else {
        decl_name_scan(t, src, root_d, j + 1, None, best)
    }
}

/// The name a declarator declares: the last identifier (plain, field or
/// type) found walking its named descendants in document order, not
/// looking into parameter lists; `None` for a parameter list itself.
pub open spec fn decl_name(t: Seq<NodeView>, src: Seq<u8>, i: int) -> Option<Seq<char>> {
    if is_param_kind(t[i].kind) {
        None
    } else {
        decl_name_scan(
            t,
            src,
            t[i].depth,
            i + 1,
            None,
            if is_name_kind(t[i].kind) {
                Some(node_text(src, t[i]))
            } else {
                None
            },
        )
    }
}

/// Where a node keeps its parameters: its `parameters` field, else itself
/// when it is a parameter list.
pub open spec fn params_here(t: Seq<NodeView>, i: int) -> Option<int> {
    match field_child(t, i, "parameters"@) {
        Some(c) => Some(c),
        None => if t[i].kind == "parameter_list"@ {
            Some(i)
        } else {
            None
        },
    }
}

/// The walk over the named descendants of a node at depth `root_d`, from
/// node `j` on: the first place that keeps parameters.
pub open spec fn params_scan(t: Seq<NodeView>, root_d: usize, j: int, skip: Option<usize>) -> Option<int>
    decreases t.len() - j,
{
    if j < 0 || j >= t.len() || t[j].depth <= root_d {
        None
    } else if skipped(t, j, skip) {
        params_scan(t, root_d, j + 1, skip)
    } else if !t[j].named {
        params_scan(t, root_d, j + 1, Some(t[j].depth))
    } else {
        match params_here(t, j) {
            Some(c) => Some(c),
            None => params_scan(t, root_d, j + 1, None),
        }
    }
}

/// The parameter list of a declarator: the first node, searching it and
/// then its named descendants in document order, that keeps parameters.
pub open spec fn find_params(t: Seq<NodeView>, i: int) -> Option<int> {
    match params_here(t, i) {
        Some(c) => Some(c),
        None => params_scan(t, t[i].depth, i + 1, None),
    }
}

fn is_name_kind_exec(k: &str) -> (r: bool)
    ensures
        r == is_name_kind(k@),
{
    str_eq(k, "identifier") || str_eq(k, "field_identifier") || str_eq(k, "type_identifier")
}

fn is_param_kind_exec(k: &str) -> (r: bool)
    ensures
        r == is_param_kind(k@),
{
    str_eq(k, "parameter_list") || str_eq(k, "parameter_declaration")
}

/// The name a declarator node declares (see `decl_name`).
pub fn declarator_name(t: &Vec<SyntaxNode>, src: &[u8], i: usize) -> (r: Option<String>)
    requires
        i < t@.len(),
    ensures
        opt_view(r) == decl_name(nodes_view(t@), src@, i as int),
{
    let ghost tv = nodes_view(t@);
    assert(tv[i as int] == t@[i as int]@);
    if is_param_kind_exec(t[i].kind.as_str()) {
        return None;
    }
    let mut best: Option<String> = if is_name_kind_exec(t[i].kind.as_str()) {
        Some(text_of(src, &t[i]))
    } else {
        None
    };
    let d = t[i].depth;
    let n = t.len();
    let mut skip: Option<usize> = None;
    let mut j = i + 1;
    while j < t.len() && t[j].depth > d
        invariant
            i < j <= t@.len(),
            tv == nodes_view(t@),
            d == tv[i as int].depth,
            decl_name_scan(tv, src@, d, j as int, skip, opt_view(best)) == decl_name(tv, src@, i as int),
        decreases t.len() - j,
    {
        assert(tv[j as int] == t@[j as int]@);
        let skipping = match skip {
            Some(sd) => t[j].depth > sd,
            None => false,
        };
        if skipping {
        } else if !t[j].named || is_param_kind_exec(t[j].kind.as_str()) {
            skip = Some(t[j].depth);
        } else if is_name_kind_exec(t[j].kind.as_str()) {
            best = Some(text_of(src, &t[j]));
            skip = None;
        } else {
            skip = None;
        }
        j += 1;
    }
    proof {
        if j < t@.len() {
            assert(tv[j as int] == t@[j as int]@);
        }
    }
    best
}

fn params_here_of(t: &Vec<SyntaxNode>, i: usize) -> (r: Option<usize>)
    requires
        i < t@.len(),
    ensures
        match r {
            Some(c) => params_here(nodes_view(t@), i as int) == Some(c as int) && c < t@.len(),
            None => params_here(nodes_view(t@), i as int) is None,
        },
{
    assert(nodes_view(t@)[i as int] == t@[i as int]@);
    match field_child_of(t, i, "parameters") {
        Some(c) => Some(c),
        None => if str_eq(t[i].kind.as_str(), "parameter_list") {
            Some(i)
        } else {
            None
        },
    }
}

/// The parameter list of a declarator node (see `find_params`).
pub fn find_parameters_node(t: &Vec<SyntaxNode>, i: usize) -> (r: Option<usize>)
    requires
        i < t@.len(),
    ensures
        match r {
            Some(c) => find_params(nodes_view(t@), i as int) == Some(c as int) && c < t@.len(),
            None => find_params(nodes_view(t@), i as int) is None,
        },
{
    let ghost tv = nodes_view(t@);
    assert(tv[i as int] == t@[i as int]@);
    match params_here_of(t, i) {
        Some(c) => {
            return Some(c);
        },
        None => {},
    }
    let d = t[i].depth;
    let n = t.len();
    let mut skip: Option<usize> = None;
    let mut j = i + 1;
    while j < t.len() && t[j].depth > d
        invariant
            i < j <= t@.len(),
            tv == nodes_view(t@),
            d == tv[i as int].depth,
            params_scan(tv, d, j as int, skip) == find_params(tv, i as int),
        decreases t.len() - j,
    {
        assert(tv[j as int] == t@[j as int]@);
        let skipping = match skip {
            Some(sd) => t[j].depth > sd,
            None => false,
        };
        if skipping {
        } else if !t[j].named {
            skip = Some(t[j].depth);
        } else {
            match params_here_of(t, j) {
                Some(c) => {
                    return Some(c);
                },
                None => {},
            }
            skip = None;
        }
        j += 1;
    }
    proof {
        if j < t@.len() {
            assert(tv[j as int] == t@[j as int]@);
        }
    }
    None
}

// ---------------------------------------------------------------------------
// A function's name from its declarator's text
// ---------------------------------------------------------------------------

/// The text without parentheses.
pub open spec fn without_parens(s: Seq<char>) -> Seq<char>
    decreases s.len(),
{
    if s.len() == 0 {
        s
    } else if s.last() == '(' || s.last() == ')' {
        without_parens(s.drop_last())
    } else {
        without_parens(s.drop_last()).push(s.last())
    }
}

/// Leading `*` and `&` removed, trimming after each.
pub open spec fn strip_pointer_marks(s: Seq<char>) -> Seq<char>
    decreases s.len(),
{
    if s.len() > 0 && (s[0] == '*' || s[0] == '&') {
        proof {
            lemma_trim_len(s.skip(1));
        }
        strip_pointer_marks(trim_spec(s.skip(1)))
    } else {
        s
    }
}

/// Index of the last whitespace character among the first `n`, or -1.
pub open spec fn last_ws(s: Seq<char>, n: int) -> int
    decreases n,
{
    if n <= 0 {
        -1
    } else if is_ws(s[n - 1]) {
        n - 1
    } else {
        last_ws(s, n - 1)
    }
}

/// The last whitespace-separated word (empty when there is none).
pub open spec fn last_word(s: Seq<char>) -> Seq<char> {
    let e = trim_end_spec(s);
    e.skip(last_ws(e, e.len() as int) + 1)
}

/// A function's name read from its declarator's text: the text before the
/// first `(`, trimmed, without parentheses, without leading `*`/`&`, its
/// last word when it holds a space; `None` when nothing is left.
pub open spec fn fn_name_text(text: Seq<char>) -> Option<Seq<char>> {
    let head = trim_spec(text.take(first_index(text, '(', 0)));
    if head.len() == 0 {
        None
    } else {
        let b = strip_pointer_marks(trim_spec(without_parens(head)));
        let c = if b.contains(' ') {
            last_word(b)
        } else {
            b
        };
        if c.len() == 0 {
            None
        } else {
            Some(c)
        }
    }
}

pub proof fn lemma_trim_len(s: Seq<char>)
    ensures
        trim_spec(s).len() <= s.len(),
{
    lemma_trim_start_index_bounds(s);
    lemma_trim_end_index_bounds(s.skip(crate::text::trim_start_index(s)));
}

proof fn lemma_first_index_range(s: Seq<char>, c: char, i: int)
    requires
        0 <= i <= s.len(),
    ensures
        i <= first_index(s, c, i) <= s.len(),
    decreases s.len() - i,
{
    if i < s.len() && s[i] != c {
        lemma_first_index_range(s, c, i + 1);
    }
}

proof fn lemma_last_ws_range(s: Seq<char>, n: int)
    requires
        n <= s.len(),
    ensures
        -1 <= last_ws(s, n) < n || (n <= 0 && last_ws(s, n) == -1),
    decreases n,
{
    if n > 0 && !is_ws(s[n - 1]) {
        lemma_last_ws_range(s, n - 1);
    }
}

fn without_parens_exec(v: &Vec<char>) -> (r: Vec<char>)
    ensures
        r@ == without_parens(v@),
{
    let mut r: Vec<char> = Vec::new();
    let mut i: usize = 0;
    while i < v.len()
        invariant
            i <= v.len(),
            r@ == without_parens(v@.take(i as int)),
        decreases v.len() - i,
    {
        assert(v@.take(i + 1).drop_last() =~= v@.take(i as int));
        if v[i] != '(' && v[i] != ')' {
            r.push(v[i]);
        }
        i += 1;
    }
    assert(v@.take(v.len() as int) =~= v@);
    r
}

fn strip_pointer_marks_exec(v: &Vec<char>) -> (r: Vec<char>)
    ensures
        r@ == strip_pointer_marks(v@),
{
    let mut cur: Vec<char> = Vec::new();
    extend_range(&mut cur, v, 0, v.len());
    assert(v@.subrange(0, v.len() as int) =~= v@);
    while cur.len() > 0 && (cur[0] == '*' || cur[0] == '&')
        invariant
            strip_pointer_marks(cur@) == strip_pointer_marks(v@),
        decreases cur.len(),
    {
        let mut rest: Vec<char> = Vec::new();
        extend_range(&mut rest, &cur, 1, cur.len());
        assert(rest@ =~= cur@.skip(1));
        proof {
            lemma_trim_len(cur@.skip(1));
        }
        cur = trim_chars(&rest);
    }
    cur
}

fn last_word_exec(v: &Vec<char>) -> (r: Vec<char>)
    ensures
        r@ == last_word(v@),
{
    let e = trim_end_chars(v);
    let mut n = e.len();
    while n > 0 && !is_whitespace(e[n - 1])
        invariant
            n <= e@.len(),
            last_ws(e@, n as int) == last_ws(e@, e@.len() as int),
        decreases n,
    {
        n -= 1;
    }
    let mut r: Vec<char> = Vec::new();
    extend_range(&mut r, &e, n, e.len());
    proof {
        if n > 0 {
            assert(last_ws(e@, n as int) == n - 1);
        }
    }
    assert(r@ =~= e@.skip(last_ws(e@, e@.len() as int) + 1));
    r
}

/// A function's name read from its declarator's text (see `fn_name_text`).
pub fn function_name_from_declarator(text: &str) -> (r: Option<String>)
    ensures
        opt_view(r) == fn_name_text(text@),
{
    let v = chars_of(text);
    let k = first_index_exec(&v, '(');
    proof {
        lemma_first_index_range(v@, '(', 0);
    }
    let mut before: Vec<char> = Vec::new();
    extend_range(&mut before, &v, 0, k);
    assert(before@ =~= v@.take(k as int));
    let head = trim_chars(&before);
    if head.len() == 0 {
        return None;
    }
    let b = strip_pointer_marks_exec(&trim_chars(&without_parens_exec(&head)));
    let mut has_space = false;
    let mut i: usize = 0;
    while i < b.len()
        invariant
            i <= b.len(),
            has_space == b@.take(i as int).contains(' '),
        decreases b.len() - i,
    {
        let ghost pre = b@.take(i as int);
        let ghost post = b@.take(i + 1);
        assert(post =~= pre.push(b@[i as int]));
        proof {
            if b@[i as int] == ' ' {
                assert(post[i as int] == ' ');
            } else if pre.contains(' ') {
                let k = choose|k: int| 0 <= k < pre.len() && pre[k] == ' ';
                assert(post[k] == ' ');
            } else {
                assert forall|k: int| 0 <= k < post.len() implies post[k] != ' ' by {
                    if k < i {
                        assert(post[k] == pre[k]);
                    }
                }
            }
        }
        if b[i] == ' ' {
            has_space = true;
        }
        i += 1;
    }
    assert(b@.take(b.len() as int) =~= b@);
    let c = if has_space {
        last_word_exec(&b)
    } else {
        b
    };
    if c.len() == 0 {
        None
    } else {
        Some(string_of(&c))
    }
}

// ---------------------------------------------------------------------------
// Parameters and return types
// ---------------------------------------------------------------------------

/// The text of a parameter declaration up to its default value, trimmed.
pub open spec fn param_decl_text(text: Seq<char>) -> Seq<char> {
    let t = trim_spec(text);
    trim_spec(t.take(first_index(t, '=', 0)))
}

/// The (name, type) a parameter-list child gives: a declaration's declared
/// name and its type (the text without the name), or just the type when it
/// has no name; `...` for a variadic parameter.
pub open spec fn c_param(t: Seq<NodeView>, src: Seq<u8>, j: int) -> Option<(Seq<char>, Seq<char>)> {
    if t[j].kind == "parameter_declaration"@ {
        let name_node = match field_child(t, j, "declarator"@) {
            Some(c) => Some(c),
            None => field_child(t, j, "name"@),
        };
        let name = match name_node {
            Some(c) => decl_name(t, src, c),
            None => None,
        };
        let ty = param_type_text(param_decl_text(node_text(src, t[j])), name);
        match name {
            Some(n) => if n.len() > 0 {
                Some((n, ty))
            } else if ty.len() > 0 {
                Some((ty, Seq::empty()))
            } else {
                None
            },
            None => if ty.len() > 0 {
                Some((ty, Seq::empty()))
            } else {
                None
            },
        }
    } else if t[j].kind == "variadic_parameter"@ {
        Some(("..."@, Seq::empty()))
    } else {
        None
    }
}

pub open spec fn c_params(t: Seq<NodeView>, src: Seq<u8>, kids: Seq<int>) -> Seq<(Seq<char>, Seq<char>)>
    decreases kids.len(),
{
    if kids.len() == 0 {
        Seq::empty()
    } else {
        let prev = c_params(t, src, kids.drop_last());
        match c_param(t, src, kids.last()) {
            Some(p) => prev.push(p),
            None => prev,
        }
    }
}

/// The parameters a parameter list (when there is one) declares.
pub open spec fn c_params_at(t: Seq<NodeView>, src: Seq<u8>, p: Option<int>) -> Seq<(Seq<char>, Seq<char>)> {
    match p {
        Some(x) => c_params(t, src, named_children(t, x)),
        None => Seq::empty(),
    }
}

pub open spec fn is_c_type_kind(k: Seq<char>) -> bool {
    ||| k == "primitive_type"@
    ||| k == "type_identifier"@
    ||| k == "sized_type_specifier"@
    ||| k == "struct_specifier"@
    ||| k == "enum_specifier"@
    ||| k == "union_specifier"@
}

/// The first type among the children `kids` before the child `stop`.
pub open spec fn first_type_before(t: Seq<NodeView>, src: Seq<u8>, kids: Seq<int>, stop: Option<int>) -> Option<Seq<char>>
    decreases kids.len(),
{
    if kids.len() == 0 || stop == Some(kids[0]) {
        None
    } else if is_c_type_kind(t[kids[0]].kind) {
        Some(node_text(src, t[kids[0]]))
    } else {
        first_type_before(t, src, kids.skip(1), stop)
    }
}

/// A definition's return type: its `type` field, else its declaration
/// specifiers, else the first type among its named children before the
/// declarator.
pub open spec fn c_return_type(t: Seq<NodeView>, src: Seq<u8>, i: int) -> Option<Seq<char>> {
    match field_text(t, src, i, "type"@) {
        Some(x) => Some(x),
        None => match field_text(t, src, i, "declaration_specifiers"@) {
            Some(x) => Some(x),
            None => first_type_before(t, src, named_children(t, i), field_child(t, i, "declarator"@)),
        },
    }
}

fn declared_name_of_param(t: &Vec<SyntaxNode>, src: &[u8], j: usize) -> (r: Option<String>)
    requires
        j < t@.len(),
    ensures
        opt_view(r) == match (match field_child(nodes_view(t@), j as int, "declarator"@) {
            Some(c) => Some(c),
            None => field_child(nodes_view(t@), j as int, "name"@),
        }) {
            Some(c) => decl_name(nodes_view(t@), src@, c),
            None => None,
        },
{
    let nn = match field_child_of(t, j, "declarator") {
        Some(c) => Some(c),
        None => field_child_of(t, j, "name"),
    };
    match nn {
        Some(c) => declarator_name(t, src, c),
        None => None,
    }
}

fn param_decl_text_exec(text: &str) -> (r: String)
    ensures
        r@ == param_decl_text(text@),
{
    let v = trim_chars(&chars_of(text));
    let k = first_index_exec(&v, '=');
    proof {
        lemma_first_index_range(v@, '=', 0);
    }
    let mut before: Vec<char> = Vec::new();
    extend_range(&mut before, &v, 0, k);
    assert(before@ =~= v@.take(k as int));
    string_of(&trim_chars(&before))
}

/// The parameters a parameter list (when there is one) declares (see
/// `c_param`).
pub fn extract_parameters(t: &Vec<SyntaxNode>, src: &[u8], p: Option<usize>) -> (r: Vec<Parameter>)
    requires
        p matches Some(x) ==> x < t@.len(),
    ensures
        params_view(r@) == c_params_at(nodes_view(t@), src@, match p {
            Some(x) => Some(x as int),
            None => None,
        }),
{
    let ghost tv = nodes_view(t@);
    let mut params: Vec<Parameter> = Vec::new();
    match p {
        Some(x) => {
            let kids = named_children_of(t, x);
            let ghost ks = named_children(tv, x as int);
            let mut k: usize = 0;
            while k < kids.len()
                invariant
                    k <= kids.len(),
                    tv == nodes_view(t@),
                    kids@.len() == ks.len(),
                    forall|q: int| 0 <= q < kids@.len() ==> kids@[q] as int == ks[q] && #[trigger] kids@[q] < t@.len(),
                    params_view(params@) == c_params(tv, src@, ks.take(k as int)),
                decreases kids.len() - k,
            {
                let j = kids[k];
                assert(ks.take(k + 1).drop_last() =~= ks.take(k as int));
                assert(ks.take(k + 1).last() == j as int);
                assert(tv[j as int] == t@[j as int]@);
                let ghost before = params_view(params@);
                let kind = t[j].kind.as_str();
                if str_eq(kind, "parameter_declaration") {
                    let name = declared_name_of_param(t, src, j);
                    let text = param_decl_text_exec(text_of(src, &t[j]).as_str());
                    let ty = match &name {
                        Some(n) => extract_param_type_from_text(text.as_str(), Some(n.as_str())),
                        None => extract_param_type_from_text(text.as_str(), None),
                    };
                    let named = match &name {
                        Some(n) => !n.as_str().is_empty(),
                        None => false,
                    };
                    if named {
                        let n = match name {
                            Some(n) => n,
                            None => String::new(),
                        };
                        params.push(Parameter { name: n, param_type: ty });
                        assert(params_view(params@) =~= before.push((n@, ty@)));
                    } else if !ty.as_str().is_empty() {
                        params.push(Parameter { name: ty, param_type: String::new() });
                        assert(params_view(params@) =~= before.push((ty@, Seq::<char>::empty())));
                    }
                } else if str_eq(kind, "variadic_parameter") {
                    params.push(Parameter { name: "...".to_owned(), param_type: String::new() });
                    assert(params_view(params@) =~= before.push(("..."@, Seq::<char>::empty())));
                }
                k += 1;
            }
            assert(ks.take(kids.len() as int) =~= ks);
        },
        None => {},
    }
    params
}

fn is_c_type_kind_exec(k: &str) -> (r: bool)
    ensures
        r == is_c_type_kind(k@),
{
    str_eq(k, "primitive_type") || str_eq(k, "type_identifier") || str_eq(k, "sized_type_specifier")
        || str_eq(k, "struct_specifier") || str_eq(k, "enum_specifier") || str_eq(k, "union_specifier")
}

/// A definition's return type (see `c_return_type`).
pub fn extract_return_type(t: &Vec<SyntaxNode>, src: &[u8], i: usize) -> (r: Option<String>)
    requires
        i < t@.len(),
    ensures
        opt_view(r) == c_return_type(nodes_view(t@), src@, i as int),
{
    let ghost tv = nodes_view(t@);
    match field_text_of(t, src, i, "type") {
        Some(x) => {
            return Some(x);
        },
        None => {},
    }
    match field_text_of(t, src, i, "declaration_specifiers") {
        Some(x) => {
            return Some(x);
        },
        None => {},
    }
    let stop = field_child_of(t, i, "declarator");
    let kids = named_children_of(t, i);
    let ghost ks = named_children(tv, i as int);
    let ghost gstop = match stop {
        Some(c) => Some(c as int),
        None => None,
    };
    assert(gstop == field_child(tv, i as int, "declarator"@));
    let mut k: usize = 0;
    assert(ks.skip(0) =~= ks);
    while k < kids.len()
        invariant
            k <= kids.len(),
            tv == nodes_view(t@),
            ks == named_children(tv, i as int),
            field_text(tv, src@, i as int, "type"@) is None,
            field_text(tv, src@, i as int, "declaration_specifiers"@) is None,
            gstop == field_child(tv, i as int, "declarator"@),
            kids@.len() == ks.len(),
            gstop == match stop {
                Some(c) => Some(c as int),
                None => None::<int>,
            },
            forall|q: int| 0 <= q < kids@.len() ==> kids@[q] as int == ks[q] && #[trigger] kids@[q] < t@.len(),
            first_type_before(tv, src@, ks.skip(k as int), gstop) == first_type_before(tv, src@, ks, gstop),
        decreases kids.len() - k,
    {
        let j = kids[k];
        assert(ks.skip(k as int)[0] == j as int);
        assert(ks.skip(k as int).skip(1) =~= ks.skip(k + 1));
        assert(tv[j as int] == t@[j as int]@);
        let at_stop = match stop {
            Some(c) => c == j,
            None => false,
        };
        if at_stop {
            return None;
        }
        if is_c_type_kind_exec(t[j].kind.as_str()) {
            let txt = text_of(src, &t[j]);
            assert(first_type_before(tv, src@, ks.skip(k as int), gstop) == Some(node_text(src@, tv[j as int])));
            return Some(txt);
        }
        k += 1;
    }
    None
}

// ---------------------------------------------------------------------------
// Chunks
// ---------------------------------------------------------------------------

/// The nodes, in document order, of the tree tree-sitter's C grammar
/// parses the source into; `None` when parsing gives no tree.
pub uninterp spec fn c_syntax_spec(source: Seq<u8>) -> Option<Seq<NodeView>>;

/// `Parser::parse` with the C grammar, the tree walked in document order
/// with a `TreeCursor` (`kind`, `is_named`, `start_byte`, `end_byte`,
/// `field_name`, `depth` of each node). The contract names the result: a
/// function of the source alone.
#[verifier::external_body]
pub(crate) fn parse_c(source: &[u8]) -> (r: Option<Vec<SyntaxNode>>)
    ensures
        match r {
            Some(v) => c_syntax_spec(source@) == Some(nodes_view(v@)),
            None => c_syntax_spec(source@) is None,
        },
{
    let mut parser = tree_sitter::Parser::new();
    parser.set_language(&tree_sitter_c::LANGUAGE.into()).ok()?;
    let tree = parser.parse(source, None)?;
    let (mut c, mut out) = (tree.walk(), Vec::new());
    loop {
        let n = c.node();
        out.push(SyntaxNode { kind: n.kind().into(), named: n.is_named(), start: n.start_byte(), end: n.end_byte(), field: c.field_name().map(Into::into), depth: c.depth() as usize });
        if !c.goto_first_child() {
            while !c.goto_next_sibling() {
                if !c.goto_parent() {
                    return Some(out);
                }
            }
        }
    }
}

/// A function's name: read from its declarator's text, else the name the
/// declarator declares.
pub open spec fn c_function_name(t: Seq<NodeView>, src: Seq<u8>, i: int) -> Option<Seq<char>> {
    match field_child(t, i, "declarator"@) {
        Some(dc) => match fn_name_text(node_text(src, t[dc])) {
            Some(x) => Some(x),
            None => decl_name(t, src, dc),
        },
        None => None,
    }
}

/// A function's parameters: those of its declarator's parameter list.
pub open spec fn c_function_params(t: Seq<NodeView>, src: Seq<u8>, i: int) -> Seq<(Seq<char>, Seq<char>)> {
    match field_child(t, i, "declarator"@) {
        Some(dc) => c_params_at(t, src, find_params(t, dc)),
        None => Seq::empty(),
    }
}

/// The chunk of function definition `i`: its name, parameters and return
/// type, its text as code and its kind as chunk type.
pub open spec fn is_c_node_chunk(c: CodeChunk, t: Seq<NodeView>, src: Seq<u8>, i: int, file_path: Seq<char>, deps: Seq<Seq<char>>) -> bool {
    let fname = c_function_name(t, src, i);
    &&& is_extracted_chunk(c, file_path, id_name(seq![fname]), node_text(src, t[i]), t[i].kind, deps)
    &&& c.kind matches CodeChunkKind::C(f) && {
        &&& opt_view(f.function_name) == fname
        &&& params_view(f.parameters@) == c_function_params(t, src, i)
        &&& opt_view(f.return_type) == c_return_type(t, src, i)
        &&& f.namespace is None
    }
}

/// The function definitions among the first `n` nodes, in document order.
pub open spec fn c_chunk_nodes(t: Seq<NodeView>, n: int) -> Seq<int>
    decreases n,
{
    if n <= 0 {
        Seq::empty()
    } else if t[n - 1].kind == "function_definition"@ {
        c_chunk_nodes(t, n - 1).push(n - 1)
    } else {
        c_chunk_nodes(t, n - 1)
    }
}

/// The byte ranges of the function definitions among the first `n` nodes.
pub open spec fn c_spans(t: Seq<NodeView>, n: int) -> Seq<Span>
    decreases n,
{
    if n <= 0 {
        Seq::empty()
    } else if t[n - 1].kind == "function_definition"@ {
        c_spans(t, n - 1).push((t[n - 1].start, t[n - 1].end))
    } else {
        c_spans(t, n - 1)
    }
}

/// `r` holds the chunks of a parsed C file: one per function definition
/// in document order, then the remainder chunk when they leave any text.
pub open spec fn c_chunks_ok(r: Seq<CodeChunk>, t: Seq<NodeView>, src: Seq<u8>, file_path: Seq<char>, deps: Seq<Seq<char>>) -> bool {
    let idx = c_chunk_nodes(t, t.len() as int);
    let spans = c_spans(t, t.len() as int);
    &&& r.len() == idx.len() + if has_remainder(src, spans) { 1int } else { 0int }
    &&& forall|k: int| 0 <= k < idx.len() ==> is_c_node_chunk(#[trigger] r[k], t, src, idx[k], file_path, deps)
    &&& has_remainder(src, spans) ==> is_remainder_chunk(r[idx.len() as int], src, spans, file_path, deps)
}

/// A function's name (see `c_function_name`).
pub fn c_function_name_of(t: &Vec<SyntaxNode>, src: &[u8], i: usize) -> (r: Option<String>)
    requires
        i < t@.len(),
    ensures
        opt_view(r) == c_function_name(nodes_view(t@), src@, i as int),
{
    match field_child_of(t, i, "declarator") {
        Some(dc) => {
            assert(nodes_view(t@)[dc as int] == t@[dc as int]@);
            match function_name_from_declarator(text_of(src, &t[dc]).as_str()) {
                Some(x) => Some(x),
                None => declarator_name(t, src, dc),
            }
        },
        None => None,
    }
}

/// A function's parameters (see `c_function_params`).
pub fn c_function_params_of(t: &Vec<SyntaxNode>, src: &[u8], i: usize) -> (r: Vec<Parameter>)
    requires
        i < t@.len(),
    ensures
        params_view(r@) == c_function_params(nodes_view(t@), src@, i as int),
{
    match field_child_of(t, i, "declarator") {
        Some(dc) => extract_parameters(t, src, find_parameters_node(t, dc)),
        None => {
            let r: Vec<Parameter> = Vec::new();
            assert(params_view(r@) =~= Seq::<(Seq<char>, Seq<char>)>::empty());
            r
        },
    }
}

/// The chunks of a parsed C file: one per function definition in document
/// order, then the remainder chunk when they leave any text.
pub fn extract_chunks(nodes: &Vec<SyntaxNode>, source: &[u8], file_path: &str, deps: &Vec<String>) -> (r: Vec<CodeChunk>)
    ensures
        c_chunks_ok(r@, nodes_view(nodes@), source@, file_path@, views(deps@)),
{
    let ghost tv = nodes_view(nodes@);
    let mut chunks: Vec<CodeChunk> = Vec::new();
    let mut spans: Vec<Span> = Vec::new();
    let mut i: usize = 0;
    while i < nodes.len()
        invariant
            i <= nodes@.len(),
            tv == nodes_view(nodes@),
            spans@ == c_spans(tv, i as int),
            chunks@.len() == c_chunk_nodes(tv, i as int).len(),
            forall|k: int| 0 <= k < chunks@.len() ==> is_c_node_chunk(#[trigger] chunks@[k], tv, source@, c_chunk_nodes(tv, i as int)[k], file_path@, views(deps@)),
        decreases nodes.len() - i,
    {
        let node = &nodes[i];
        assert(tv[i as int] == nodes@[i as int]@);
        let kind = node.kind.as_str();
        let ghost prev = chunks@;
        let ghost prev_idx = c_chunk_nodes(tv, i as int);
        if str_eq(kind, "function_definition") {
            let function_name = c_function_name_of(nodes, source, i);
            let parameters = c_function_params_of(nodes, source, i);
            let return_type = extract_return_type(nodes, source, i);
            let code = text_of(source, node);
            let c = make_c_chunk(file_path, function_name, parameters, return_type, code, kind, deps);
            assert(is_c_node_chunk(c, tv, source@, i as int, file_path@, views(deps@)));
            chunks.push(c);
            spans.push((node.start, node.end));
            assert(c_chunk_nodes(tv, i + 1) == prev_idx.push(i as int));
            assert forall|k: int| 0 <= k < chunks@.len() implies is_c_node_chunk(#[trigger] chunks@[k], tv, source@, c_chunk_nodes(tv, i + 1)[k], file_path@, views(deps@)) by {
                if k < prev.len() {
                    assert(chunks@[k] == prev[k]);
                }
            }
        } else {
            assert(c_chunk_nodes(tv, i + 1) == prev_idx);
        }
        i += 1;
    }
    match make_remainder_chunk(source, spans.as_slice(), file_path, deps) {
        Some(rc) => {
            chunks.push(rc);
        },
        None => {},
    }
    chunks
}

// ---------------------------------------------------------------------------
// Dependencies
// ---------------------------------------------------------------------------

/// The preprocessor keyword that opens a header inclusion.
pub open spec fn directive_keyword() -> Seq<char> {
    seq!['#', 'i', 'n', 'c', 'l', 'u', 'd', 'e']
}

/// The header a `preproc_include` node names: its `path` (or `name`)
/// child's text, else the text after the directive keyword, else its whole
/// text; quotes or angle brackets removed.
pub open spec fn header_dep(t: Seq<NodeView>, src: Seq<u8>, j: int) -> Seq<char> {
    match (match field_child(t, j, "path"@) {
        Some(c) => Some(c),
        None => field_child(t, j, "name"@),
    }) {
        Some(c) => include_target(node_text(src, t[c])),
        None => {
            let raw = node_text(src, t[j]);
            match find_from(raw, directive_keyword(), 0) {
                Some(k) => include_target(raw.skip(k + 8)),
                None => include_target(raw),
            }
        },
    }
}

/// The headers the first `n` nodes include, each once, in document order.
pub open spec fn c_deps(t: Seq<NodeView>, src: Seq<u8>, n: int) -> Seq<Seq<char>>
    decreases n,
{
    if n <= 0 {
        Seq::empty()
    } else {
        let prev = c_deps(t, src, n - 1);
        if t[n - 1].kind == "preproc_include"@ && !prev.contains(header_dep(t, src, n - 1)) {
            prev.push(header_dep(t, src, n - 1))
        } else {
            prev
        }
    }
}

fn directive_keyword_exec() -> (r: Vec<char>)
    ensures
        r@ == directive_keyword(),
{
    let mut r: Vec<char> = Vec::new();
    r.push('#');
    r.push('i');
    r.push('n');
    r.push('c');
    r.push('l');
    r.push('u');
    r.push('d');
    r.push('e');
    assert(r@ =~= directive_keyword());
    r
}

fn header_dep_of(t: &Vec<SyntaxNode>, src: &[u8], j: usize) -> (r: String)
    requires
        j < t@.len(),
    ensures
        r@ == header_dep(nodes_view(t@), src@, j as int),
{
    let nn = match field_child_of(t, j, "path") {
        Some(c) => Some(c),
        None => field_child_of(t, j, "name"),
    };
    match nn {
        Some(c) => {
            assert(nodes_view(t@)[c as int] == t@[c as int]@);
            normalize_include_target(text_of(src, &t[c]).as_str())
        },
        None => {
            assert(nodes_view(t@)[j as int] == t@[j as int]@);
            let raw = chars_of(text_of(src, &t[j]).as_str());
            let kw = directive_keyword_exec();
            match find_subseq(&raw, &kw, 0) {
                Some(k) => {
                    proof {
                        lemma_find_from_bounds(raw@, directive_keyword(), 0);
                        assert(occurs_at(raw@, kw@, k as int));
                    }
                    let n = raw.len();
                    let rest = string_of_range(&raw, k + 8, n);
                    assert(rest@ =~= raw@.skip(k + 8));
                    normalize_include_target(rest.as_str())
                },
                None => normalize_include_target(string_of(&raw).as_str()),
            }
        },
    }
}

/// The headers a parsed C or C++ file includes, each once, in document
/// order.
pub fn extract_dependencies(nodes: &Vec<SyntaxNode>, source: &[u8]) -> (r: Vec<String>)
    ensures
        views(r@) == c_deps(nodes_view(nodes@), source@, nodes@.len() as int),
{
    let ghost tv = nodes_view(nodes@);
    let mut deps: Vec<String> = Vec::new();
    let mut i: usize = 0;
    while i < nodes.len()
        invariant
            i <= nodes@.len(),
            tv == nodes_view(nodes@),
            views(deps@) == c_deps(tv, source@, i as int),
        decreases nodes.len() - i,
    {
        assert(tv[i as int] == nodes@[i as int]@);
        if str_eq(nodes[i].kind.as_str(), "preproc_include") {
            let d = header_dep_of(nodes, source, i);
            if !contains_string(&deps, d.as_str()) {
                push_string(&mut deps, d);
            }
        }
        i += 1;
    }
    deps
}

/// The chunks of a C source file, with its included headers as
/// dependencies; none when the source does not parse.
pub fn chunk_c_source(source: &[u8], file_path: &str) -> (r: Vec<CodeChunk>)
    ensures
        match c_syntax_spec(source@) {
            Some(t) => c_chunks_ok(r@, t, source@, file_path@, c_deps(t, source@, t.len() as int)),
            None => r@.len() == 0,
        },
{
    match parse_c(source) {
        Some(nodes) => {
            let deps = extract_dependencies(&nodes, source);
            extract_chunks(&nodes, source, file_path, &deps)
        },
        None => Vec::new(),
    }
}

/// The headers a C source file includes; none when it does not parse.
pub fn c_source_dependencies(source: &[u8]) -> (r: Vec<String>)
    ensures
        match c_syntax_spec(source@) {
            Some(t) => views(r@) == c_deps(t, source@, t.len() as int),
            None => r@.len() == 0,
        },
{
    match parse_c(source) {
        Some(nodes) => extract_dependencies(&nodes, source),
        None => Vec::new(),
    }
}

} // verus!
