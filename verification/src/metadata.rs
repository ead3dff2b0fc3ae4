//! The metadata payload stored beside each code chunk: text values under
//! fixed keys, the chunk's base fields first and then those of its language
//! payload, in the order in which they are inserted into the payload.
use vstd::prelude::*;
use crate::chunk_types::{
    CFields, CppFields, CSharpFields, JavaFields, JavaScriptFields, TypeScriptFields, ReactFields,
    RustFields, PythonFields, SqlFields, CodeChunkKind, bool_text, params_typed, param_types,
    props_python, format_params_typed, format_param_types, format_props_typed, format_props_python,
};
use crate::code_chunk::CodeChunk;
use crate::seqtext::{join, join_strings, views};
use crate::sql::opt_text;

verus! {

/// The keys and values of a payload, in insertion order.
pub open spec fn entries_view(v: Seq<(String, String)>) -> Seq<(Seq<char>, Seq<char>)> {
    Seq::new(v.len(), |i: int| (v[i].0@, v[i].1@))
}

fn push_entry(v: &mut Vec<(String, String)>, key: &str, value: String)
    ensures
        entries_view(final(v)@) == entries_view(old(v)@).push((key@, value@)),
{
    let ghost before = entries_view(v@);
    v.push((key.to_owned(), value));
    assert(entries_view(v@) =~= before.push((key@, value@)));
}

fn text_or_empty(o: &Option<String>) -> (r: String)
    ensures
        r@ == opt_text(*o),
{
    match o {
        Some(s) => s.clone(),
        None => String::new(),
    }
}

fn bool_string(b: bool) -> (r: String)
    ensures
        r@ == bool_text(b),
{
    if b {
        "true".to_owned()
    } else {
        "false".to_owned()
    }
}

// ---------------------------------------------------------------------------
// Per-language payloads
// ---------------------------------------------------------------------------

pub open spec fn c_meta(f: CFields) -> Seq<(Seq<char>, Seq<char>)> {
    seq![
        ("function_name"@, opt_text(f.function_name)),
        ("parameters"@, params_typed(f.parameters@)),
        ("return_type"@, opt_text(f.return_type)),
        ("namespace"@, opt_text(f.namespace)),
    ]
}

pub open spec fn cpp_meta(f: CppFields) -> Seq<(Seq<char>, Seq<char>)> {
    seq![
        ("class_name"@, opt_text(f.class_name)),
        ("function_name"@, opt_text(f.function_name)),
        ("parameters"@, params_typed(f.parameters@)),
        ("return_type"@, opt_text(f.return_type)),
        ("namespace"@, opt_text(f.namespace)),
    ]
}

pub open spec fn csharp_meta(f: CSharpFields) -> Seq<(Seq<char>, Seq<char>)> {
    seq![
        ("class_name"@, opt_text(f.class_name)),
        ("interface_name"@, opt_text(f.interface_name)),
        ("function_name"@, opt_text(f.function_name)),
        ("parameters"@, params_typed(f.parameters@)),
        ("return_type"@, opt_text(f.return_type)),
        ("properties"@, params_typed(f.properties@)),
    ]
}

pub open spec fn java_meta(f: JavaFields) -> Seq<(Seq<char>, Seq<char>)> {
    seq![
        ("class_name"@, opt_text(f.class_name)),
        ("function_name"@, opt_text(f.function_name)),
        ("parameters"@, params_typed(f.parameters@)),
        ("return_type"@, opt_text(f.return_type)),
        ("namespace"@, opt_text(f.namespace)),
    ]
}

/// The JavaScript and TypeScript payloads share their keys.
pub open spec fn script_meta(
    class_name: Option<String>,
    function_name: Option<String>,
    parameters: Seq<crate::chunk_types::Parameter>,
    return_type: Option<String>,
    is_method: bool,
    is_async: bool,
    is_generator: bool,
) -> Seq<(Seq<char>, Seq<char>)> {
    seq![
        ("class_name"@, opt_text(class_name)),
        ("function_name"@, opt_text(function_name)),
        ("parameters"@, params_typed(parameters)),
        ("return_type"@, opt_text(return_type)),
        ("is_method"@, bool_text(is_method)),
        ("is_async"@, bool_text(is_async)),
        ("is_generator"@, bool_text(is_generator)),
    ]
}

pub open spec fn js_meta(f: JavaScriptFields) -> Seq<(Seq<char>, Seq<char>)> {
    script_meta(f.class_name, f.function_name, f.parameters@, f.return_type, f.is_method, f.is_async, f.is_generator)
}

pub open spec fn ts_meta(f: TypeScriptFields) -> Seq<(Seq<char>, Seq<char>)> {
    script_meta(f.class_name, f.function_name, f.parameters@, f.return_type, f.is_method, f.is_async, f.is_generator)
}

pub open spec fn react_meta(f: ReactFields) -> Seq<(Seq<char>, Seq<char>)> {
    seq![
        ("component_name"@, opt_text(f.component_name)),
        ("is_functional"@, bool_text(f.is_functional)),
        ("hooks_used"@, join(views(f.hooks_used@), ", "@)),
        ("props"@, params_typed(f.props@)),
        ("component_type"@, opt_text(f.component_type)),
        ("parent_component"@, opt_text(f.parent_component)),
    ]
}

pub open spec fn rust_meta(f: RustFields) -> Seq<(Seq<char>, Seq<char>)> {
    seq![
        ("class_name"@, opt_text(f.class_name)),
        ("function_name"@, opt_text(f.function_name)),
        ("parameters"@, params_typed(f.parameters@)),
        ("return_type"@, opt_text(f.return_type)),
        ("namespace"@, opt_text(f.namespace)),
    ]
}

pub open spec fn python_meta(f: PythonFields) -> Seq<(Seq<char>, Seq<char>)> {
    seq![
        ("class_name"@, opt_text(f.class_name)),
        ("function_name"@, opt_text(f.function_name)),
        ("alias_name"@, opt_text(f.alias_name)),
        ("alias_target"@, opt_text(f.alias_target)),
        ("parameters"@, param_types(f.parameters@)),
        ("return_type"@, opt_text(f.return_type)),
        ("properties"@, props_python(f.properties@)),
        ("decorators"@, join(views(f.decorators@), ", "@)),
        ("type_parameters"@, opt_text(f.type_parameters)),
        ("bases"@, opt_text(f.bases)),
        ("is_method"@, bool_text(f.is_method)),
        ("is_async"@, bool_text(f.is_async)),
        ("is_generator"@, bool_text(f.is_generator)),
        ("is_type_alias"@, bool_text(f.is_type_alias)),
    ]
}

pub open spec fn sql_meta(f: SqlFields) -> Seq<(Seq<char>, Seq<char>)> {
    seq![
        ("statement_type"@, opt_text(f.statement_type)),
        ("object_name"@, opt_text(f.object_name)),
        ("schema_name"@, opt_text(f.schema_name)),
        ("database_name"@, opt_text(f.database_name)),
    ]
}

/// The language payload's entries; none for a generic chunk.
pub open spec fn kind_meta(k: CodeChunkKind) -> Seq<(Seq<char>, Seq<char>)> {
    match k {
        CodeChunkKind::Generic => Seq::empty(),
        CodeChunkKind::C(f) => c_meta(f),
        CodeChunkKind::Cpp(f) => cpp_meta(f),
        CodeChunkKind::CSharp(f) => csharp_meta(f),
        CodeChunkKind::Java(f) => java_meta(f),
        CodeChunkKind::JavaScript(f) => js_meta(f),
        CodeChunkKind::TypeScript(f) => ts_meta(f),
        CodeChunkKind::React(f) => react_meta(f),
        CodeChunkKind::Rust(f) => rust_meta(f),
        CodeChunkKind::Python(f) => python_meta(f),
        CodeChunkKind::Sql(f) => sql_meta(f),
    }
}

/// The full payload of a chunk: its base fields, then its language payload.
pub open spec fn chunk_meta(c: CodeChunk) -> Seq<(Seq<char>, Seq<char>)> {
    seq![
        ("repo_name"@, c.repo_name@),
        ("file_name"@, c.file_name@),
        ("type"@, c.chunk_type@),
        ("code"@, c.code@),
        ("dependencies"@, join(views(c.dependencies@), ", "@)),
        ("created_at"@, c.created_at@),
    ] + kind_meta(c.kind)
}

pub fn c_metadata(f: &CFields) -> (m: Vec<(String, String)>)
    ensures
        entries_view(m@) == c_meta(*f),
{
    let mut m: Vec<(String, String)> = Vec::new();
    push_entry(&mut m, "function_name", text_or_empty(&f.function_name));
    push_entry(&mut m, "parameters", format_params_typed(f.parameters.as_slice()));
    push_entry(&mut m, "return_type", text_or_empty(&f.return_type));
    push_entry(&mut m, "namespace", text_or_empty(&f.namespace));
    assert(entries_view(m@) =~= c_meta(*f));
    m
}

pub fn cpp_metadata(f: &CppFields) -> (m: Vec<(String, String)>)
    ensures
        entries_view(m@) == cpp_meta(*f),
{
    let mut m: Vec<(String, String)> = Vec::new();
    push_entry(&mut m, "class_name", text_or_empty(&f.class_name));
    push_entry(&mut m, "function_name", text_or_empty(&f.function_name));
    push_entry(&mut m, "parameters", format_params_typed(f.parameters.as_slice()));
    push_entry(&mut m, "return_type", text_or_empty(&f.return_type));
    push_entry(&mut m, "namespace", text_or_empty(&f.namespace));
    assert(entries_view(m@) =~= cpp_meta(*f));
    m
}

pub fn csharp_metadata(f: &CSharpFields) -> (m: Vec<(String, String)>)
    ensures
        entries_view(m@) == csharp_meta(*f),
{
    let mut m: Vec<(String, String)> = Vec::new();
    push_entry(&mut m, "class_name", text_or_empty(&f.class_name));
    push_entry(&mut m, "interface_name", text_or_empty(&f.interface_name));
    push_entry(&mut m, "function_name", text_or_empty(&f.function_name));
    push_entry(&mut m, "parameters", format_params_typed(f.parameters.as_slice()));
    push_entry(&mut m, "return_type", text_or_empty(&f.return_type));
    push_entry(&mut m, "properties", format_props_typed(f.properties.as_slice()));
    assert(entries_view(m@) =~= csharp_meta(*f));
    m
}

pub fn java_metadata(f: &JavaFields) -> (m: Vec<(String, String)>)
    ensures
        entries_view(m@) == java_meta(*f),
{
    let mut m: Vec<(String, String)> = Vec::new();
    push_entry(&mut m, "class_name", text_or_empty(&f.class_name));
    push_entry(&mut m, "function_name", text_or_empty(&f.function_name));
    push_entry(&mut m, "parameters", format_params_typed(f.parameters.as_slice()));
    push_entry(&mut m, "return_type", text_or_empty(&f.return_type));
    push_entry(&mut m, "namespace", text_or_empty(&f.namespace));
    assert(entries_view(m@) =~= java_meta(*f));
    m
}

fn script_metadata(
    class_name: &Option<String>,
    function_name: &Option<String>,
    parameters: &Vec<crate::chunk_types::Parameter>,
    return_type: &Option<String>,
    is_method: bool,
    is_async: bool,
    is_generator: bool,
) -> (m: Vec<(String, String)>)
    ensures
        entries_view(m@) == script_meta(
            *class_name,
            *function_name,
            parameters@,
            *return_type,
            is_method,
            is_async,
            is_generator,
        ),
{
    let mut m: Vec<(String, String)> = Vec::new();
    push_entry(&mut m, "class_name", text_or_empty(class_name));
    push_entry(&mut m, "function_name", text_or_empty(function_name));
    push_entry(&mut m, "parameters", format_params_typed(parameters.as_slice()));
    push_entry(&mut m, "return_type", text_or_empty(return_type));
    push_entry(&mut m, "is_method", bool_string(is_method));
    push_entry(&mut m, "is_async", bool_string(is_async));
    push_entry(&mut m, "is_generator", bool_string(is_generator));
    assert(entries_view(m@) =~= script_meta(
        *class_name,
        *function_name,
        parameters@,
        *return_type,
        is_method,
        is_async,
        is_generator,
    ));
    m
}

pub fn js_metadata(f: &JavaScriptFields) -> (m: Vec<(String, String)>)
    ensures
        entries_view(m@) == js_meta(*f),
{
    script_metadata(&f.class_name, &f.function_name, &f.parameters, &f.return_type, f.is_method, f.is_async, f.is_generator)
}

pub fn ts_metadata(f: &TypeScriptFields) -> (m: Vec<(String, String)>)
    ensures
        entries_view(m@) == ts_meta(*f),
{
    script_metadata(&f.class_name, &f.function_name, &f.parameters, &f.return_type, f.is_method, f.is_async, f.is_generator)
}

pub fn react_metadata(f: &ReactFields) -> (m: Vec<(String, String)>)
    ensures
        entries_view(m@) == react_meta(*f),
{
    let mut m: Vec<(String, String)> = Vec::new();
    push_entry(&mut m, "component_name", text_or_empty(&f.component_name));
    push_entry(&mut m, "is_functional", bool_string(f.is_functional));
    push_entry(&mut m, "hooks_used", join_strings(&f.hooks_used, ", "));
    push_entry(&mut m, "props", format_params_typed(f.props.as_slice()));
    push_entry(&mut m, "component_type", text_or_empty(&f.component_type));
    push_entry(&mut m, "parent_component", text_or_empty(&f.parent_component));
    assert(entries_view(m@) =~= react_meta(*f));
    m
}

pub fn rust_metadata(f: &RustFields) -> (m: Vec<(String, String)>)
    ensures
        entries_view(m@) == rust_meta(*f),
{
    let mut m: Vec<(String, String)> = Vec::new();
    push_entry(&mut m, "class_name", text_or_empty(&f.class_name));
    push_entry(&mut m, "function_name", text_or_empty(&f.function_name));
    push_entry(&mut m, "parameters", format_params_typed(f.parameters.as_slice()));
    push_entry(&mut m, "return_type", text_or_empty(&f.return_type));
    push_entry(&mut m, "namespace", text_or_empty(&f.namespace));
    assert(entries_view(m@) =~= rust_meta(*f));
    m
}

pub fn python_metadata(f: &PythonFields) -> (m: Vec<(String, String)>)
    ensures
        entries_view(m@) == python_meta(*f),
{
    let mut m: Vec<(String, String)> = Vec::new();
    push_entry(&mut m, "class_name", text_or_empty(&f.class_name));
    push_entry(&mut m, "function_name", text_or_empty(&f.function_name));
    push_entry(&mut m, "alias_name", text_or_empty(&f.alias_name));
    push_entry(&mut m, "alias_target", text_or_empty(&f.alias_target));
    push_entry(&mut m, "parameters", format_param_types(f.parameters.as_slice()));
    push_entry(&mut m, "return_type", text_or_empty(&f.return_type));
    push_entry(&mut m, "properties", format_props_python(f.properties.as_slice()));
    push_entry(&mut m, "decorators", join_strings(&f.decorators, ", "));
    push_entry(&mut m, "type_parameters", text_or_empty(&f.type_parameters));
    push_entry(&mut m, "bases", text_or_empty(&f.bases));
    push_entry(&mut m, "is_method", bool_string(f.is_method));
    push_entry(&mut m, "is_async", bool_string(f.is_async));
    push_entry(&mut m, "is_generator", bool_string(f.is_generator));
    push_entry(&mut m, "is_type_alias", bool_string(f.is_type_alias));
    assert(entries_view(m@) =~= python_meta(*f));
    m
}

pub fn sql_metadata(f: &SqlFields) -> (m: Vec<(String, String)>)
    ensures
        entries_view(m@) == sql_meta(*f),
{
    let mut m: Vec<(String, String)> = Vec::new();
    push_entry(&mut m, "statement_type", text_or_empty(&f.statement_type));
    push_entry(&mut m, "object_name", text_or_empty(&f.object_name));
    push_entry(&mut m, "schema_name", text_or_empty(&f.schema_name));
    push_entry(&mut m, "database_name", text_or_empty(&f.database_name));
    assert(entries_view(m@) =~= sql_meta(*f));
    m
}

impl CodeChunk {
    /// The entries of the language payload alone (none for a generic chunk).
    pub fn kind_metadata(&self) -> (m: Vec<(String, String)>)
        ensures
            entries_view(m@) == kind_meta(self.kind),
    {
        match &self.kind {
            CodeChunkKind::Generic => Vec::new(),
            CodeChunkKind::C(f) => c_metadata(f),
            CodeChunkKind::Cpp(f) => cpp_metadata(f),
            CodeChunkKind::CSharp(f) => csharp_metadata(f),
            CodeChunkKind::Java(f) => java_metadata(f),
            CodeChunkKind::JavaScript(f) => js_metadata(f),
            CodeChunkKind::TypeScript(f) => ts_metadata(f),
            CodeChunkKind::React(f) => react_metadata(f),
            CodeChunkKind::Rust(f) => rust_metadata(f),
            CodeChunkKind::Python(f) => python_metadata(f),
            CodeChunkKind::Sql(f) => sql_metadata(f),
        }
    }

    /// The full payload: repository, file, type, code, dependencies (joined
    /// by `, `) and creation time, then the language payload.
    pub fn chunk_metadata(&self) -> (m: Vec<(String, String)>)
        ensures
            entries_view(m@) == chunk_meta(*self),
    {
        let mut m: Vec<(String, String)> = Vec::new();
        push_entry(&mut m, "repo_name", self.repo_name.clone());
        push_entry(&mut m, "file_name", self.file_name.clone());
        push_entry(&mut m, "type", self.chunk_type.clone());
        push_entry(&mut m, "code", self.code.clone());
        push_entry(&mut m, "dependencies", join_strings(&self.dependencies, ", "));
        push_entry(&mut m, "created_at", self.created_at.clone());
        let kind = self.kind_metadata();
        let ghost base = entries_view(m@);
        let mut i: usize = 0;
        while i < kind.len()
            invariant
                i <= kind.len(),
                entries_view(m@) == base + entries_view(kind@).take(i as int),
            decreases kind.len() - i,
        {
            let ghost before = entries_view(m@);
            let (k, v) = (kind[i].0.clone(), kind[i].1.clone());
            m.push((k, v));
            assert(entries_view(m@) =~= before.push((kind@[i as int].0@, kind@[i as int].1@)));
            assert(entries_view(kind@).take(i + 1) =~= entries_view(kind@).take(i as int).push(
                (kind@[i as int].0@, kind@[i as int].1@),
            ));
            i += 1;
        }
        assert(entries_view(kind@).take(kind.len() as int) =~= entries_view(kind@));
        assert(entries_view(m@) =~= chunk_meta(*self));
        m
    }
}

} // verus!
