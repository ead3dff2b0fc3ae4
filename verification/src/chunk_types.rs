//! Chunk data types shared across the ingestion pipeline: parameters, the
//! per-language code-chunk payloads, and the embedding text built from them.
use vstd::prelude::*;
use crate::text::{chars_of, concat_str, string_of, trim_chars, trim_spec, str_eq};
use crate::seqtext::{join, join_chars, join_strings, keep_nonempty, nonempty_only, push_string, append_strings, views, vviews};
use crate::normalize::{normalize_code, normalize_code_spec};

verus! {

/// `{name, type}` pair describing a function parameter or a property.
#[derive(Debug, Clone, Default, PartialEq, Eq)]
pub struct Parameter {
    pub name: String,
    pub param_type: String,
}

impl Parameter {
    pub fn new(name: &str, param_type: &str) -> (p: Self)
        ensures
            p.name@ == name@,
            p.param_type@ == param_type@,
    {
        Parameter { name: name.to_owned(), param_type: param_type.to_owned() }
    }
}

/// `"<type> <name>"`, or just the name when the type is blank (both trimmed).
pub open spec fn typed_param(p: Parameter) -> Seq<char> {
    let t = trim_spec(p.param_type@);
    let n = trim_spec(p.name@);
    if t.len() == 0 {
        n
    } else {
        t + seq![' '] + n
    }
}

/// `"<name>: <type>"`, or just the name when the type is blank (both trimmed).
pub open spec fn python_prop(p: Parameter) -> Seq<char> {
    let t = trim_spec(p.param_type@);
    let n = trim_spec(p.name@);
    if t.len() == 0 {
        n
    } else {
        n + seq![':', ' '] + t
    }
}

pub open spec fn comma_sep() -> Seq<char> {
    seq![',', ' ']
}

/// What `format_params_typed` returns.
pub open spec fn params_typed(ps: Seq<Parameter>) -> Seq<char> {
    join(Seq::new(ps.len(), |i: int| typed_param(ps[i])), comma_sep())
}

/// What `format_param_types` returns.
pub open spec fn param_types(ps: Seq<Parameter>) -> Seq<char> {
    join(nonempty_only(Seq::new(ps.len(), |i: int| trim_spec(ps[i].param_type@))), comma_sep())
}

/// What `format_props_python` returns.
pub open spec fn props_python(ps: Seq<Parameter>) -> Seq<char> {
    join(Seq::new(ps.len(), |i: int| python_prop(ps[i])), comma_sep())
}

fn typed_param_chars(p: &Parameter) -> (r: Vec<char>)
    ensures
        r@ == typed_param(*p),
{
    let t = trim_chars(&chars_of(p.param_type.as_str()));
    let n = trim_chars(&chars_of(p.name.as_str()));
    if t.len() == 0 {
        n
    } else {
        let mut r = t;
        r.push(' ');
        crate::text::extend_all(&mut r, &n);
        r
    }
}

fn python_prop_chars(p: &Parameter) -> (r: Vec<char>)
    ensures
        r@ == python_prop(*p),
{
    let t = trim_chars(&chars_of(p.param_type.as_str()));
    let n = trim_chars(&chars_of(p.name.as_str()));
    if t.len() == 0 {
        n
    } else {
        let mut r = n;
        r.push(':');
        r.push(' ');
        crate::text::extend_all(&mut r, &t);
        r
    }
}

fn comma_chars() -> (r: Vec<char>)
    ensures
        r@ == comma_sep(),
{
    let r: Vec<char> = vec![',', ' '];
    assert(r@ == comma_sep());
    r
}

/// Format parameters as `"<type> <name>, <type> <name>"`.
pub fn format_params_typed(params: &[Parameter]) -> (r: String)
    ensures
        r@ == params_typed(params@),
{
    let mut parts: Vec<Vec<char>> = Vec::new();
    let mut i: usize = 0;
    while i < params.len()
        invariant
            i <= params.len(),
            vviews(parts@) == Seq::new(i as nat, |k: int| typed_param(params@[k])),
        decreases params.len() - i,
    {
        let ghost before = vviews(parts@);
        let c = typed_param_chars(&params[i]);
        parts.push(c);
        assert(vviews(parts@) =~= before.push(c@));
        i += 1;
        assert(vviews(parts@) =~= Seq::new(i as nat, |k: int| typed_param(params@[k])));
    }
    let r = join_chars(&parts, &comma_chars());
    string_of(&r)
}

/// Format parameter types only, as `"<type>, <type>"` (blank types skipped).
pub fn format_param_types(params: &[Parameter]) -> (r: String)
    ensures
        r@ == param_types(params@),
{
    let mut parts: Vec<String> = Vec::new();
    let mut i: usize = 0;
    while i < params.len()
        invariant
            i <= params.len(),
            views(parts@) == Seq::new(i as nat, |k: int| trim_spec(params@[k].param_type@)),
        decreases params.len() - i,
    {
        let t = trim_chars(&chars_of(params[i].param_type.as_str()));
        push_string(&mut parts, string_of(&t));
        i += 1;
        assert(views(parts@) =~= Seq::new(i as nat, |k: int| trim_spec(params@[k].param_type@)));
    }
    let kept = keep_nonempty(&parts);
    proof {
        reveal_strlit(", ");
    }
    assert(", "@ == comma_sep());
    join_strings(&kept, ", ")
}

/// Format properties as `"<type> <name>, ..."` (same as parameters).
pub fn format_props_typed(props: &[Parameter]) -> (r: String)
    ensures
        r@ == params_typed(props@),
{
    format_params_typed(props)
}

/// Format properties as `"<name>: <type>, ..."`.
pub fn format_props_python(props: &[Parameter]) -> (r: String)
    ensures
        r@ == props_python(props@),
{
    let mut parts: Vec<Vec<char>> = Vec::new();
    let mut i: usize = 0;
    while i < props.len()
        invariant
            i <= props.len(),
            vviews(parts@) == Seq::new(i as nat, |k: int| python_prop(props@[k])),
        decreases props.len() - i,
    {
        let ghost before = vviews(parts@);
        let c = python_prop_chars(&props[i]);
        parts.push(c);
        assert(vviews(parts@) =~= before.push(c@));
        i += 1;
        assert(vviews(parts@) =~= Seq::new(i as nat, |k: int| python_prop(props@[k])));
    }
    let r = join_chars(&parts, &comma_chars());
    string_of(&r)
}

} // verus!

verus! {

// ---------------------------------------------------------------------------
// Per-language payloads
// ---------------------------------------------------------------------------

#[derive(Debug, Clone, PartialEq, Default)]
pub struct CFields {
    pub function_name: Option<String>,
    pub parameters: Vec<Parameter>,
    pub return_type: Option<String>,
    pub namespace: Option<String>,
}

#[derive(Debug, Clone, PartialEq, Default)]
pub struct CppFields {
    pub function_name: Option<String>,
    pub class_name: Option<String>,
    pub parameters: Vec<Parameter>,
    pub return_type: Option<String>,
    pub namespace: Option<String>,
}

#[derive(Debug, Clone, PartialEq, Default)]
pub struct CSharpFields {
    pub class_name: Option<String>,
    pub interface_name: Option<String>,
    pub function_name: Option<String>,
    pub parameters: Vec<Parameter>,
    pub return_type: Option<String>,
    pub properties: Vec<Parameter>,
}

#[derive(Debug, Clone, PartialEq, Default)]
pub struct JavaFields {
    pub function_name: Option<String>,
    pub class_name: Option<String>,
    pub parameters: Vec<Parameter>,
    pub return_type: Option<String>,
    pub namespace: Option<String>,
}

#[derive(Debug, Clone, PartialEq, Default)]
pub struct JavaScriptFields {
    pub function_name: Option<String>,
    pub class_name: Option<String>,
    pub parameters: Vec<Parameter>,
    pub return_type: Option<String>,
    pub is_method: bool,
    pub is_async: bool,
    pub is_generator: bool,
}

#[derive(Debug, Clone, PartialEq, Default)]
pub struct TypeScriptFields {
    pub function_name: Option<String>,
    pub class_name: Option<String>,
    pub parameters: Vec<Parameter>,
    pub return_type: Option<String>,
    pub is_method: bool,
    pub is_async: bool,
    pub is_generator: bool,
}

#[derive(Debug, Clone, PartialEq, Default)]
pub struct ReactFields {
    pub component_name: Option<String>,
    pub is_functional: bool,
    pub hooks_used: Vec<String>,
    pub props: Vec<Parameter>,
    pub is_exported: bool,
    pub component_type: Option<String>,
    pub parent_component: Option<String>,
}

#[derive(Debug, Clone, PartialEq, Default)]
pub struct RustFields {
    pub function_name: Option<String>,
    pub class_name: Option<String>,
    pub parameters: Vec<Parameter>,
    pub return_type: Option<String>,
    pub namespace: Option<String>,
}

#[derive(Debug, Clone, PartialEq, Default)]
pub struct PythonFields {
    pub function_name: Option<String>,
    pub class_name: Option<String>,
    pub parameters: Vec<Parameter>,
    pub return_type: Option<String>,
    pub properties: Vec<Parameter>,
    pub decorators: Vec<String>,
    pub is_method: bool,
    pub is_async: bool,
    pub is_generator: bool,
    pub is_type_alias: bool,
    pub alias_name: Option<String>,
    pub alias_target: Option<String>,
    pub type_parameters: Option<String>,
    pub bases: Option<String>,
}

#[derive(Debug, Clone, PartialEq, Default)]
pub struct SqlFields {
    pub statement_type: Option<String>,
    pub object_name: Option<String>,
    pub schema_name: Option<String>,
    pub database_name: Option<String>,
}

/// Language-specific chunk payload, one variant per chunker.
#[derive(Debug, Clone, PartialEq)]
pub enum CodeChunkKind {
    Generic,
    C(CFields),
    Cpp(CppFields),
    CSharp(CSharpFields),
    Java(JavaFields),
    JavaScript(JavaScriptFields),
    TypeScript(TypeScriptFields),
    React(ReactFields),
    Rust(RustFields),
    Python(PythonFields),
    Sql(SqlFields),
}

// ---------------------------------------------------------------------------
// Embedding-text lines
// ---------------------------------------------------------------------------

/// One line `prefix + value` when the value is present.
pub open spec fn opt_line(prefix: Seq<char>, o: Option<String>) -> Seq<Seq<char>> {
    match o {
        Some(s) => seq![prefix + s@],
        None => Seq::empty(),
    }
}

/// One line `prefix + body` when `cond` holds.
pub open spec fn cond_line(cond: bool, line: Seq<char>) -> Seq<Seq<char>> {
    if cond {
        seq![line]
    } else {
        Seq::empty()
    }
}

/// `bool::to_string`.
pub open spec fn bool_text(b: bool) -> Seq<char> {
    if b {
        "true"@
    } else {
        "false"@
    }
}

pub open spec fn params_line(ps: Seq<Parameter>) -> Seq<Seq<char>> {
    cond_line(ps.len() > 0, "Parameters: "@ + params_typed(ps))
}

fn push_opt_line(v: &mut Vec<String>, prefix: &str, o: &Option<String>)
    ensures
        views(final(v)@) == views(old(v)@) + opt_line(prefix@, *o),
{
    match o {
        Some(s) => {
            let ghost before = views(v@);
            push_string(v, concat_str(prefix, s.as_str()));
            assert(views(v@) =~= before + opt_line(prefix@, *o));
        },
        None => {
            assert(views(v@) =~= views(v@) + opt_line(prefix@, *o));
        },
    }
}

fn push_params_line(v: &mut Vec<String>, ps: &Vec<Parameter>)
    ensures
        views(final(v)@) == views(old(v)@) + params_line(ps@),
{
    let ghost before = views(v@);
    if ps.len() > 0 {
        let body = format_params_typed(ps.as_slice());
        push_string(v, concat_str("Parameters: ", body.as_str()));
    }
    assert(views(v@) =~= before + params_line(ps@));
}

fn bool_string(b: bool) -> (s: String)
    ensures
        s@ == bool_text(b),
{
    if b {
        "true".to_owned()
    } else {
        "false".to_owned()
    }
}

fn push_line(v: &mut Vec<String>, prefix: &str, body: &str)
    ensures
        views(final(v)@) == views(old(v)@).push(prefix@ + body@),
{
    push_string(v, concat_str(prefix, body));
}

pub open spec fn c_parts(f: CFields) -> Seq<Seq<char>> {
    opt_line("Namespace: "@, f.namespace) + opt_line("Function: "@, f.function_name)
        + params_line(f.parameters@) + opt_line("Return Type: "@, f.return_type)
}

pub open spec fn cpp_parts(f: CppFields) -> Seq<Seq<char>> {
    opt_line("Namespace: "@, f.namespace) + opt_line("Class: "@, f.class_name) + opt_line(
        "Function: "@,
        f.function_name,
    ) + params_line(f.parameters@) + opt_line("Return Type: "@, f.return_type)
}

pub open spec fn csharp_parts(f: CSharpFields) -> Seq<Seq<char>> {
    opt_line("Class: "@, f.class_name) + opt_line("Interface: "@, f.interface_name) + opt_line(
        "Function: "@,
        f.function_name,
    ) + params_line(f.parameters@) + opt_line("Return Type: "@, f.return_type) + cond_line(
        f.properties@.len() > 0,
        "Properties: "@ + params_typed(f.properties@),
    )
}

pub open spec fn java_parts(f: JavaFields) -> Seq<Seq<char>> {
    opt_line("Namespace: "@, f.namespace) + opt_line("Class: "@, f.class_name) + opt_line(
        "Function: "@,
        f.function_name,
    ) + params_line(f.parameters@) + opt_line("Return Type: "@, f.return_type)
}

pub open spec fn js_like_parts(
    class_name: Option<String>,
    function_name: Option<String>,
    parameters: Seq<Parameter>,
    return_type: Option<String>,
    is_method: bool,
    is_async: bool,
    is_generator: bool,
) -> Seq<Seq<char>> {
    opt_line("Class: "@, class_name) + opt_line("Function: "@, function_name) + params_line(
        parameters,
    ) + opt_line("Return Type: "@, return_type) + seq![
        "Method: "@ + bool_text(is_method),
        "Async: "@ + bool_text(is_async),
        "Generator: "@ + bool_text(is_generator),
    ]
}

pub open spec fn js_parts(f: JavaScriptFields) -> Seq<Seq<char>> {
    js_like_parts(
        f.class_name,
        f.function_name,
        f.parameters@,
        f.return_type,
        f.is_method,
        f.is_async,
        f.is_generator,
    )
}

pub open spec fn ts_parts(f: TypeScriptFields) -> Seq<Seq<char>> {
    js_like_parts(
        f.class_name,
        f.function_name,
        f.parameters@,
        f.return_type,
        f.is_method,
        f.is_async,
        f.is_generator,
    )
}

pub open spec fn react_parts(f: ReactFields) -> Seq<Seq<char>> {
    opt_line("Component: "@, f.component_name) + cond_line(
        f.hooks_used@.len() > 0,
        "Hooks: "@ + join(views(f.hooks_used@), comma_sep()),
    ) + cond_line(f.props@.len() > 0, "Props: "@ + params_typed(f.props@)) + opt_line(
        "Parent Component: "@,
        f.parent_component,
    )
}

pub open spec fn rust_parts(f: RustFields) -> Seq<Seq<char>> {
    opt_line("Namespace: "@, f.namespace) + opt_line("Class: "@, f.class_name) + opt_line(
        "Function: "@,
        f.function_name,
    ) + params_line(f.parameters@) + opt_line("Return Type: "@, f.return_type)
}

/// Python property text: `"<name>: <type>"`, or the name alone when the
/// type is empty (no trimming).
pub open spec fn python_prop_raw(p: Parameter) -> Seq<char> {
    if p.param_type@.len() == 0 {
        p.name@
    } else {
        p.name@ + seq![':', ' '] + p.param_type@
    }
}

pub open spec fn python_head(f: PythonFields) -> Seq<Seq<char>> {
    opt_line("Class: "@, f.class_name) + opt_line("Function: "@, f.function_name) + opt_line(
        "Type Alias: "@,
        f.alias_name,
    ) + opt_line("Alias Target: "@, f.alias_target)
}

pub open spec fn python_middle(f: PythonFields) -> Seq<Seq<char>> {
    cond_line(f.parameters@.len() > 0, "Parameters: "@ + param_types(f.parameters@)) + opt_line(
        "Return Type: "@,
        f.return_type,
    ) + cond_line(
        f.properties@.len() > 0,
        "Properties: "@ + join(
            Seq::new(f.properties@.len(), |i: int| python_prop_raw(f.properties@[i])),
            comma_sep(),
        ),
    ) + cond_line(
        f.decorators@.len() > 0,
        "Decorators: "@ + join(views(f.decorators@), comma_sep()),
    )
}

pub open spec fn python_tail(f: PythonFields) -> Seq<Seq<char>> {
    opt_line("Type Parameters: "@, f.type_parameters) + opt_line("Bases: "@, f.bases) + cond_line(
        f.is_method,
        "Method: True"@,
    ) + cond_line(f.is_async, "Async: True"@) + cond_line(f.is_generator, "Generator: True"@)
        + cond_line(f.is_type_alias, "Type Alias: True"@)
}

pub open spec fn python_parts(f: PythonFields) -> Seq<Seq<char>> {
    python_head(f) + python_middle(f) + python_tail(f)
}

pub open spec fn sql_parts(f: SqlFields) -> Seq<Seq<char>> {
    opt_line("Database: "@, f.database_name) + opt_line("Statement: "@, f.statement_type)
        + opt_line("Schema: "@, f.schema_name) + opt_line("Object: "@, f.object_name)
}

/// The per-language embedding lines of a payload.
pub open spec fn kind_parts(k: CodeChunkKind) -> Seq<Seq<char>> {
    match k {
        CodeChunkKind::Generic => Seq::empty(),
        CodeChunkKind::C(f) => c_parts(f),
        CodeChunkKind::Cpp(f) => cpp_parts(f),
        CodeChunkKind::CSharp(f) => csharp_parts(f),
        CodeChunkKind::Java(f) => java_parts(f),
        CodeChunkKind::JavaScript(f) => js_parts(f),
        CodeChunkKind::TypeScript(f) => ts_parts(f),
        CodeChunkKind::React(f) => react_parts(f),
        CodeChunkKind::Rust(f) => rust_parts(f),
        CodeChunkKind::Python(f) => python_parts(f),
        CodeChunkKind::Sql(f) => sql_parts(f),
    }
}

pub fn c_embedding_parts(f: &CFields) -> (v: Vec<String>)
    ensures
        views(v@) == c_parts(*f),
{
    let mut v: Vec<String> = Vec::new();
    push_opt_line(&mut v, "Namespace: ", &f.namespace);
    push_opt_line(&mut v, "Function: ", &f.function_name);
    push_params_line(&mut v, &f.parameters);
    push_opt_line(&mut v, "Return Type: ", &f.return_type);
    assert(views(v@) =~= c_parts(*f));
    v
}

pub fn cpp_embedding_parts(f: &CppFields) -> (v: Vec<String>)
    ensures
        views(v@) == cpp_parts(*f),
{
    let mut v: Vec<String> = Vec::new();
    push_opt_line(&mut v, "Namespace: ", &f.namespace);
    push_opt_line(&mut v, "Class: ", &f.class_name);
    push_opt_line(&mut v, "Function: ", &f.function_name);
    push_params_line(&mut v, &f.parameters);
    push_opt_line(&mut v, "Return Type: ", &f.return_type);
    assert(views(v@) =~= cpp_parts(*f));
    v
}

pub fn csharp_embedding_parts(f: &CSharpFields) -> (v: Vec<String>)
    ensures
        views(v@) == csharp_parts(*f),
{
    let mut v: Vec<String> = Vec::new();
    push_opt_line(&mut v, "Class: ", &f.class_name);
    push_opt_line(&mut v, "Interface: ", &f.interface_name);
    push_opt_line(&mut v, "Function: ", &f.function_name);
    push_params_line(&mut v, &f.parameters);
    push_opt_line(&mut v, "Return Type: ", &f.return_type);
    let ghost before = views(v@);
    if f.properties.len() > 0 {
        let body = format_props_typed(f.properties.as_slice());
        push_line(&mut v, "Properties: ", body.as_str());
    }
    assert(views(v@) =~= csharp_parts(*f));
    v
}

pub fn java_embedding_parts(f: &JavaFields) -> (v: Vec<String>)
    ensures
        views(v@) == java_parts(*f),
{
    let mut v: Vec<String> = Vec::new();
    push_opt_line(&mut v, "Namespace: ", &f.namespace);
    push_opt_line(&mut v, "Class: ", &f.class_name);
    push_opt_line(&mut v, "Function: ", &f.function_name);
    push_params_line(&mut v, &f.parameters);
    push_opt_line(&mut v, "Return Type: ", &f.return_type);
    assert(views(v@) =~= java_parts(*f));
    v
}

fn js_like_embedding_parts(
    class_name: &Option<String>,
    function_name: &Option<String>,
    parameters: &Vec<Parameter>,
    return_type: &Option<String>,
    is_method: bool,
    is_async: bool,
    is_generator: bool,
) -> (v: Vec<String>)
    ensures
        views(v@) == js_like_parts(
            *class_name,
            *function_name,
            parameters@,
            *return_type,
            is_method,
            is_async,
            is_generator,
        ),
{
    let mut v: Vec<String> = Vec::new();
    push_opt_line(&mut v, "Class: ", class_name);
    push_opt_line(&mut v, "Function: ", function_name);
    push_params_line(&mut v, parameters);
    push_opt_line(&mut v, "Return Type: ", return_type);
    push_line(&mut v, "Method: ", bool_string(is_method).as_str());
    push_line(&mut v, "Async: ", bool_string(is_async).as_str());
    push_line(&mut v, "Generator: ", bool_string(is_generator).as_str());
    assert(views(v@) =~= js_like_parts(
        *class_name,
        *function_name,
        parameters@,
        *return_type,
        is_method,
        is_async,
        is_generator,
    ));
    v
}

pub fn js_embedding_parts(f: &JavaScriptFields) -> (v: Vec<String>)
    ensures
        views(v@) == js_parts(*f),
{
    js_like_embedding_parts(
        &f.class_name,
        &f.function_name,
        &f.parameters,
        &f.return_type,
        f.is_method,
        f.is_async,
        f.is_generator,
    )
}

pub fn ts_embedding_parts(f: &TypeScriptFields) -> (v: Vec<String>)
    ensures
        views(v@) == ts_parts(*f),
{
    js_like_embedding_parts(
        &f.class_name,
        &f.function_name,
        &f.parameters,
        &f.return_type,
        f.is_method,
        f.is_async,
        f.is_generator,
    )
}

pub fn react_embedding_parts(f: &ReactFields) -> (v: Vec<String>)
    ensures
        views(v@) == react_parts(*f),
{
    let mut v: Vec<String> = Vec::new();
    push_opt_line(&mut v, "Component: ", &f.component_name);
    if f.hooks_used.len() > 0 {
        let hooks = join_strings(&f.hooks_used, ", ");
        proof {
            reveal_strlit(", ");
        }
        assert(", "@ == comma_sep());
        push_line(&mut v, "Hooks: ", hooks.as_str());
    }
    if f.props.len() > 0 {
        let props = format_params_typed(f.props.as_slice());
        push_line(&mut v, "Props: ", props.as_str());
    }
    push_opt_line(&mut v, "Parent Component: ", &f.parent_component);
    assert(views(v@) =~= react_parts(*f));
    v
}

pub fn rust_embedding_parts(f: &RustFields) -> (v: Vec<String>)
    ensures
        views(v@) == rust_parts(*f),
{
    let mut v: Vec<String> = Vec::new();
    push_opt_line(&mut v, "Namespace: ", &f.namespace);
    push_opt_line(&mut v, "Class: ", &f.class_name);
    push_opt_line(&mut v, "Function: ", &f.function_name);
    push_params_line(&mut v, &f.parameters);
    push_opt_line(&mut v, "Return Type: ", &f.return_type);
    assert(views(v@) =~= rust_parts(*f));
    v
}

fn python_props_text(ps: &Vec<Parameter>) -> (r: String)
    ensures
        r@ == join(Seq::new(ps@.len(), |i: int| python_prop_raw(ps@[i])), comma_sep()),
{
    let mut parts: Vec<Vec<char>> = Vec::new();
    let mut i: usize = 0;
    while i < ps.len()
        invariant
            i <= ps.len(),
            vviews(parts@) == Seq::new(i as nat, |k: int| python_prop_raw(ps@[k])),
        decreases ps.len() - i,
    {
        let ghost before = vviews(parts@);
        let n = chars_of(ps[i].name.as_str());
        let t = chars_of(ps[i].param_type.as_str());
        let c = if t.len() == 0 {
            n
        } else {
            let mut c = n;
            c.push(':');
            c.push(' ');
            crate::text::extend_all(&mut c, &t);
            c
        };
        assert(c@ == python_prop_raw(ps@[i as int]));
        parts.push(c);
        assert(vviews(parts@) =~= before.push(c@));
        i += 1;
        assert(vviews(parts@) =~= Seq::new(i as nat, |k: int| python_prop_raw(ps@[k])));
    }
    let r = join_chars(&parts, &comma_chars());
    string_of(&r)
}

fn python_head_parts(f: &PythonFields) -> (v: Vec<String>)
    ensures
        views(v@) == python_head(*f),
{
    let mut v: Vec<String> = Vec::new();
    push_opt_line(&mut v, "Class: ", &f.class_name);
    push_opt_line(&mut v, "Function: ", &f.function_name);
    push_opt_line(&mut v, "Type Alias: ", &f.alias_name);
    push_opt_line(&mut v, "Alias Target: ", &f.alias_target);
    assert(views(v@) =~= python_head(*f));
    v
}

fn python_middle_parts(f: &PythonFields) -> (v: Vec<String>)
    ensures
        views(v@) == python_middle(*f),
{
    proof {
        reveal_strlit(", ");
    }
    assert(", "@ == comma_sep());
    let mut v: Vec<String> = Vec::new();
    if f.parameters.len() > 0 {
        let body = format_param_types(f.parameters.as_slice());
        push_line(&mut v, "Parameters: ", body.as_str());
    }
    push_opt_line(&mut v, "Return Type: ", &f.return_type);
    let ghost mid = views(v@);
    if f.properties.len() > 0 {
        let body = python_props_text(&f.properties);
        push_line(&mut v, "Properties: ", body.as_str());
    }
    if f.decorators.len() > 0 {
        let body = join_strings(&f.decorators, ", ");
        push_line(&mut v, "Decorators: ", body.as_str());
    }
    assert(views(v@) =~= python_middle(*f));
    v
}

fn python_tail_parts(f: &PythonFields) -> (v: Vec<String>)
    ensures
        views(v@) == python_tail(*f),
{
    let mut v: Vec<String> = Vec::new();
    push_opt_line(&mut v, "Type Parameters: ", &f.type_parameters);
    push_opt_line(&mut v, "Bases: ", &f.bases);
    if f.is_method {
        push_string(&mut v, "Method: True".to_owned());
    }
    if f.is_async {
        push_string(&mut v, "Async: True".to_owned());
    }
    if f.is_generator {
        push_string(&mut v, "Generator: True".to_owned());
    }
    if f.is_type_alias {
        push_string(&mut v, "Type Alias: True".to_owned());
    }
    assert(views(v@) =~= python_tail(*f));
    v
}

pub fn python_embedding_parts(f: &PythonFields) -> (v: Vec<String>)
    ensures
        views(v@) == python_parts(*f),
{
    let mut v = python_head_parts(f);
    append_strings(&mut v, &python_middle_parts(f));
    append_strings(&mut v, &python_tail_parts(f));
    v
}

pub fn sql_embedding_parts(f: &SqlFields) -> (v: Vec<String>)
    ensures
        views(v@) == sql_parts(*f),
{
    let mut v: Vec<String> = Vec::new();
    push_opt_line(&mut v, "Database: ", &f.database_name);
    push_opt_line(&mut v, "Statement: ", &f.statement_type);
    push_opt_line(&mut v, "Schema: ", &f.schema_name);
    push_opt_line(&mut v, "Object: ", &f.object_name);
    assert(views(v@) =~= sql_parts(*f));
    v
}

} // verus!

verus! {

// ---------------------------------------------------------------------------
// Field-wise views and copies of payloads
// ---------------------------------------------------------------------------

pub open spec fn opt_view(o: Option<String>) -> Option<Seq<char>> {
    match o {
        Some(s) => Some(s@),
        None => None,
    }
}

pub open spec fn params_view(v: Seq<Parameter>) -> Seq<(Seq<char>, Seq<char>)> {
    Seq::new(v.len(), |i: int| (v[i].name@, v[i].param_type@))
}

/// Two payloads of the same language whose fields hold the same text.
pub open spec fn same_kind(a: CodeChunkKind, b: CodeChunkKind) -> bool {
    match (a, b) {
        (CodeChunkKind::Generic, CodeChunkKind::Generic) => true,
        (CodeChunkKind::C(x), CodeChunkKind::C(y)) => opt_view(x.function_name) == opt_view(
            y.function_name,
        ) && params_view(x.parameters@) == params_view(y.parameters@) && opt_view(x.return_type)
            == opt_view(y.return_type) && opt_view(x.namespace) == opt_view(y.namespace),
        (CodeChunkKind::Cpp(x), CodeChunkKind::Cpp(y)) => opt_view(x.function_name) == opt_view(
            y.function_name,
        ) && opt_view(x.class_name) == opt_view(y.class_name) && params_view(x.parameters@)
            == params_view(y.parameters@) && opt_view(x.return_type) == opt_view(y.return_type)
            && opt_view(x.namespace) == opt_view(y.namespace),
        (CodeChunkKind::CSharp(x), CodeChunkKind::CSharp(y)) => opt_view(x.class_name) == opt_view(
            y.class_name,
        ) && opt_view(x.interface_name) == opt_view(y.interface_name) && opt_view(x.function_name)
            == opt_view(y.function_name) && params_view(x.parameters@) == params_view(
            y.parameters@,
        ) && opt_view(x.return_type) == opt_view(y.return_type) && params_view(x.properties@)
            == params_view(y.properties@),
        (CodeChunkKind::Java(x), CodeChunkKind::Java(y)) => opt_view(x.function_name) == opt_view(
            y.function_name,
        ) && opt_view(x.class_name) == opt_view(y.class_name) && params_view(x.parameters@)
            == params_view(y.parameters@) && opt_view(x.return_type) == opt_view(y.return_type)
            && opt_view(x.namespace) == opt_view(y.namespace),
        (CodeChunkKind::JavaScript(x), CodeChunkKind::JavaScript(y)) => opt_view(x.function_name)
            == opt_view(y.function_name) && opt_view(x.class_name) == opt_view(y.class_name)
            && params_view(x.parameters@) == params_view(y.parameters@) && opt_view(x.return_type)
            == opt_view(y.return_type) && x.is_method == y.is_method && x.is_async == y.is_async
            && x.is_generator == y.is_generator,
        (CodeChunkKind::TypeScript(x), CodeChunkKind::TypeScript(y)) => opt_view(x.function_name)
            == opt_view(y.function_name) && opt_view(x.class_name) == opt_view(y.class_name)
            && params_view(x.parameters@) == params_view(y.parameters@) && opt_view(x.return_type)
            == opt_view(y.return_type) && x.is_method == y.is_method && x.is_async == y.is_async
            && x.is_generator == y.is_generator,
        (CodeChunkKind::React(x), CodeChunkKind::React(y)) => opt_view(x.component_name)
            == opt_view(y.component_name) && x.is_functional == y.is_functional && views(
            x.hooks_used@,
        ) == views(y.hooks_used@) && params_view(x.props@) == params_view(y.props@)
            && x.is_exported == y.is_exported && opt_view(x.component_type) == opt_view(
            y.component_type,
        ) && opt_view(x.parent_component) == opt_view(y.parent_component),
        (CodeChunkKind::Rust(x), CodeChunkKind::Rust(y)) => opt_view(x.function_name) == opt_view(
            y.function_name,
        ) && opt_view(x.class_name) == opt_view(y.class_name) && params_view(x.parameters@)
            == params_view(y.parameters@) && opt_view(x.return_type) == opt_view(y.return_type)
            && opt_view(x.namespace) == opt_view(y.namespace),
        (CodeChunkKind::Python(x), CodeChunkKind::Python(y)) => opt_view(x.function_name)
            == opt_view(y.function_name) && opt_view(x.class_name) == opt_view(y.class_name)
            && params_view(x.parameters@) == params_view(y.parameters@) && opt_view(x.return_type)
            == opt_view(y.return_type) && params_view(x.properties@) == params_view(
            y.properties@,
        ) && views(x.decorators@) == views(y.decorators@) && x.is_method == y.is_method
            && x.is_async == y.is_async && x.is_generator == y.is_generator && x.is_type_alias
            == y.is_type_alias && opt_view(x.alias_name) == opt_view(y.alias_name) && opt_view(
            x.alias_target,
        ) == opt_view(y.alias_target) && opt_view(x.type_parameters) == opt_view(
            y.type_parameters,
        ) && opt_view(x.bases) == opt_view(y.bases),
        (CodeChunkKind::Sql(x), CodeChunkKind::Sql(y)) => opt_view(x.statement_type) == opt_view(
            y.statement_type,
        ) && opt_view(x.object_name) == opt_view(y.object_name) && opt_view(x.schema_name)
            == opt_view(y.schema_name) && opt_view(x.database_name) == opt_view(y.database_name),
        _ => false,
    }
}

pub fn copy_opt(o: &Option<String>) -> (r: Option<String>)
    ensures
        opt_view(r) == opt_view(*o),
{
    match o {
        Some(s) => Some(s.clone()),
        None => None,
    }
}

pub fn copy_params(v: &Vec<Parameter>) -> (r: Vec<Parameter>)
    ensures
        params_view(r@) == params_view(v@),
{
    let mut r: Vec<Parameter> = Vec::new();
    let mut i: usize = 0;
    while i < v.len()
        invariant
            i <= v.len(),
            params_view(r@) == params_view(v@).take(i as int),
        decreases v.len() - i,
    {
        let p = Parameter { name: v[i].name.clone(), param_type: v[i].param_type.clone() };
        let ghost before = params_view(r@);
        r.push(p);
        assert(params_view(r@) =~= before.push((p.name@, p.param_type@)));
        i += 1;
        assert(params_view(v@).take(i as int) =~= params_view(v@).take(i - 1).push(
            (v@[i - 1].name@, v@[i - 1].param_type@),
        ));
    }
    assert(params_view(v@).take(v.len() as int) == params_view(v@));
    r
}

pub fn copy_strings(v: &Vec<String>) -> (r: Vec<String>)
    ensures
        views(r@) == views(v@),
{
    let mut r: Vec<String> = Vec::new();
    append_strings(&mut r, v);
    assert(views(r@) =~= views(v@));
    r
}

/// A field-by-field copy of a payload.
pub fn copy_kind(k: &CodeChunkKind) -> (r: CodeChunkKind)
    ensures
        same_kind(r, *k),
{
    match k {
        CodeChunkKind::Generic => CodeChunkKind::Generic,
        CodeChunkKind::C(f) => CodeChunkKind::C(
            CFields {
                function_name: copy_opt(&f.function_name),
                parameters: copy_params(&f.parameters),
                return_type: copy_opt(&f.return_type),
                namespace: copy_opt(&f.namespace),
            },
        ),
        CodeChunkKind::Cpp(f) => CodeChunkKind::Cpp(
            CppFields {
                function_name: copy_opt(&f.function_name),
                class_name: copy_opt(&f.class_name),
                parameters: copy_params(&f.parameters),
                return_type: copy_opt(&f.return_type),
                namespace: copy_opt(&f.namespace),
            },
        ),
        CodeChunkKind::CSharp(f) => CodeChunkKind::CSharp(
            CSharpFields {
                class_name: copy_opt(&f.class_name),
                interface_name: copy_opt(&f.interface_name),
                function_name: copy_opt(&f.function_name),
                parameters: copy_params(&f.parameters),
                return_type: copy_opt(&f.return_type),
                properties: copy_params(&f.properties),
            },
        ),
        CodeChunkKind::Java(f) => CodeChunkKind::Java(
            JavaFields {
                function_name: copy_opt(&f.function_name),
                class_name: copy_opt(&f.class_name),
                parameters: copy_params(&f.parameters),
                return_type: copy_opt(&f.return_type),
                namespace: copy_opt(&f.namespace),
            },
        ),
        CodeChunkKind::JavaScript(f) => CodeChunkKind::JavaScript(
            JavaScriptFields {
                function_name: copy_opt(&f.function_name),
                class_name: copy_opt(&f.class_name),
                parameters: copy_params(&f.parameters),
                return_type: copy_opt(&f.return_type),
                is_method: f.is_method,
                is_async: f.is_async,
                is_generator: f.is_generator,
            },
        ),
        CodeChunkKind::TypeScript(f) => CodeChunkKind::TypeScript(
            TypeScriptFields {
                function_name: copy_opt(&f.function_name),
                class_name: copy_opt(&f.class_name),
                parameters: copy_params(&f.parameters),
                return_type: copy_opt(&f.return_type),
                is_method: f.is_method,
                is_async: f.is_async,
                is_generator: f.is_generator,
            },
        ),
        CodeChunkKind::React(f) => CodeChunkKind::React(
            ReactFields {
                component_name: copy_opt(&f.component_name),
                is_functional: f.is_functional,
                hooks_used: copy_strings(&f.hooks_used),
                props: copy_params(&f.props),
                is_exported: f.is_exported,
                component_type: copy_opt(&f.component_type),
                parent_component: copy_opt(&f.parent_component),
            },
        ),
        CodeChunkKind::Rust(f) => CodeChunkKind::Rust(
            RustFields {
                function_name: copy_opt(&f.function_name),
                class_name: copy_opt(&f.class_name),
                parameters: copy_params(&f.parameters),
                return_type: copy_opt(&f.return_type),
                namespace: copy_opt(&f.namespace),
            },
        ),
        CodeChunkKind::Python(f) => CodeChunkKind::Python(
            PythonFields {
                function_name: copy_opt(&f.function_name),
                class_name: copy_opt(&f.class_name),
                parameters: copy_params(&f.parameters),
                return_type: copy_opt(&f.return_type),
                properties: copy_params(&f.properties),
                decorators: copy_strings(&f.decorators),
                is_method: f.is_method,
                is_async: f.is_async,
                is_generator: f.is_generator,
                is_type_alias: f.is_type_alias,
                alias_name: copy_opt(&f.alias_name),
                alias_target: copy_opt(&f.alias_target),
                type_parameters: copy_opt(&f.type_parameters),
                bases: copy_opt(&f.bases),
            },
        ),
        CodeChunkKind::Sql(f) => CodeChunkKind::Sql(
            SqlFields {
                statement_type: copy_opt(&f.statement_type),
                object_name: copy_opt(&f.object_name),
                schema_name: copy_opt(&f.schema_name),
                database_name: copy_opt(&f.database_name),
            },
        ),
    }
}

} // verus!
