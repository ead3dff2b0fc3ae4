//! Construction of the per-language chunks the extractors emit: every
//! chunk gets an id from its file and name, the file's base name, the
//! file's dependencies and a creation time.
use vstd::prelude::*;
use crate::code_chunk::{CodeChunk, now_iso};
use crate::chunk_types::{
    CodeChunkKind, CFields, CppFields, CSharpFields, JavaFields, JavaScriptFields, PythonFields, ReactFields,
    RustFields, Parameter, copy_strings,
};
use crate::seqtext::views;
use crate::chunk_types::{opt_view, copy_opt};
use crate::sql::{base_name, generate_chunk_id};
use crate::languages::path_file_name;

verus! {

/// The first present name, or `Unknown`.
pub open spec fn id_name(names: Seq<Option<Seq<char>>>) -> Seq<char>
    decreases names.len(),
{
    if names.len() == 0 {
        "Unknown"@
    } else {
        match names[0] {
            Some(n) => n,
            None => id_name(names.skip(1)),
        }
    }
}

pub open spec fn opt_views(v: Seq<Option<String>>) -> Seq<Option<Seq<char>>> {
    Seq::new(v.len(), |i: int| opt_view(v[i]))
}

/// The base fields every extracted chunk has.
pub open spec fn is_extracted_chunk(c: CodeChunk, file_path: Seq<char>, name: Seq<char>, code: Seq<char>, chunk_type: Seq<char>, deps: Seq<Seq<char>>) -> bool {
    &&& exists|suffix: Seq<char>| suffix.len() == 8 && c.id@ == base_name(file_path) + "-"@ + name + "-"@ + suffix
    &&& c.repo_name@.len() == 0
    &&& c.file_name@ == base_name(file_path)
    &&& c.code@ == code
    &&& c.chunk_type@ == chunk_type
    &&& views(c.dependencies@) == deps
}

fn name_or_unknown(names: &Vec<Option<String>>) -> (r: String)
    ensures
        r@ == id_name(opt_views(names@)),
{
    let mut i: usize = 0;
    assert(opt_views(names@).skip(0) =~= opt_views(names@));
    while i < names.len()
        invariant
            i <= names.len(),
            id_name(opt_views(names@).skip(i as int)) == id_name(opt_views(names@)),
        decreases names.len() - i,
    {
        assert(opt_views(names@).skip(i as int).skip(1) =~= opt_views(names@).skip(i + 1));
        assert(opt_views(names@).skip(i as int)[0] == opt_view(names@[i as int]));
        match &names[i] {
            Some(n) => {
                return n.clone();
            },
            None => {},
        }
        i += 1;
    }
    assert(opt_views(names@).skip(names.len() as int) =~= Seq::<Option<Seq<char>>>::empty());
    "Unknown".to_owned()
}

fn base_chunk(file_path: &str, name: &str, code: String, chunk_type: &str, deps: &Vec<String>, kind: CodeChunkKind) -> (c: CodeChunk)
    ensures
        is_extracted_chunk(c, file_path@, name@, code@, chunk_type@, views(deps@)),
        c.kind == kind,
{
    let file_name = match path_file_name(file_path) {
        Some(n) => n,
        None => file_path.to_owned(),
    };
    CodeChunk {
        id: generate_chunk_id(file_path, name),
        repo_name: String::new(),
        file_name,
        code,
        chunk_type: chunk_type.to_owned(),
        dependencies: copy_strings(deps),
        created_at: now_iso(),
        kind,
    }
}

/// A C chunk, identified by its function name.
pub fn make_c_chunk(file_path: &str, function_name: Option<String>, parameters: Vec<Parameter>, return_type: Option<String>, code: String, chunk_type: &str, deps: &Vec<String>) -> (c: CodeChunk)
    ensures
        is_extracted_chunk(c, file_path@, id_name(seq![opt_view(function_name)]), code@, chunk_type@, views(deps@)),
        c.kind == CodeChunkKind::C(CFields { function_name, parameters, return_type, namespace: None }),
{
    let mut names: Vec<Option<String>> = Vec::new();
    names.push(copy_opt(&function_name));
    assert(opt_views(names@) =~= seq![opt_view(function_name)]);
    let name = name_or_unknown(&names);
    base_chunk(file_path, name.as_str(), code, chunk_type, deps, CodeChunkKind::C(CFields { function_name, parameters, return_type, namespace: None }))
}

/// A C++ chunk, identified by its function name, else its class name.
pub fn make_cpp_chunk(file_path: &str, function_name: Option<String>, class_name: Option<String>, parameters: Vec<Parameter>, return_type: Option<String>, namespace: Option<String>, code: String, chunk_type: &str, deps: &Vec<String>) -> (c: CodeChunk)
    ensures
        is_extracted_chunk(c, file_path@, id_name(seq![opt_view(function_name), opt_view(class_name)]), code@, chunk_type@, views(deps@)),
        c.kind == CodeChunkKind::Cpp(CppFields { function_name, class_name, parameters, return_type, namespace }),
{
    let mut names: Vec<Option<String>> = Vec::new();
    names.push(copy_opt(&function_name));
    names.push(copy_opt(&class_name));
    assert(opt_views(names@) =~= seq![opt_view(function_name), opt_view(class_name)]);
    let name = name_or_unknown(&names);
    base_chunk(file_path, name.as_str(), code, chunk_type, deps, CodeChunkKind::Cpp(CppFields { function_name, class_name, parameters, return_type, namespace }))
}

/// A Java chunk, identified by its method name, else its class name.
pub fn make_java_chunk(file_path: &str, function_name: Option<String>, class_name: Option<String>, parameters: Vec<Parameter>, return_type: Option<String>, namespace: Option<String>, code: String, chunk_type: &str, deps: &Vec<String>) -> (c: CodeChunk)
    ensures
        is_extracted_chunk(c, file_path@, id_name(seq![opt_view(function_name), opt_view(class_name)]), code@, chunk_type@, views(deps@)),
        c.kind == CodeChunkKind::Java(JavaFields { function_name, class_name, parameters, return_type, namespace }),
{
    let mut names: Vec<Option<String>> = Vec::new();
    names.push(copy_opt(&function_name));
    names.push(copy_opt(&class_name));
    assert(opt_views(names@) =~= seq![opt_view(function_name), opt_view(class_name)]);
    let name = name_or_unknown(&names);
    base_chunk(file_path, name.as_str(), code, chunk_type, deps, CodeChunkKind::Java(JavaFields { function_name, class_name, parameters, return_type, namespace }))
}

/// A JavaScript chunk (no return type), identified by its function name,
/// else its class name.
pub fn make_js_chunk(file_path: &str, function_name: Option<String>, class_name: Option<String>, parameters: Vec<Parameter>, is_method: bool, is_async: bool, is_generator: bool, code: String, chunk_type: &str, deps: &Vec<String>) -> (c: CodeChunk)
    ensures
        is_extracted_chunk(c, file_path@, id_name(seq![opt_view(function_name), opt_view(class_name)]), code@, chunk_type@, views(deps@)),
        c.kind == CodeChunkKind::JavaScript(JavaScriptFields { function_name, class_name, parameters, return_type: None, is_method, is_async, is_generator }),
{
    let mut names: Vec<Option<String>> = Vec::new();
    names.push(copy_opt(&function_name));
    names.push(copy_opt(&class_name));
    assert(opt_views(names@) =~= seq![opt_view(function_name), opt_view(class_name)]);
    let name = name_or_unknown(&names);
    base_chunk(file_path, name.as_str(), code, chunk_type, deps, CodeChunkKind::JavaScript(JavaScriptFields { function_name, class_name, parameters, return_type: None, is_method, is_async, is_generator }))
}

/// A Rust chunk, identified by its function name, else its type name.
pub fn make_rust_chunk(file_path: &str, function_name: Option<String>, class_name: Option<String>, parameters: Vec<Parameter>, return_type: Option<String>, namespace: Option<String>, code: String, chunk_type: &str, deps: &Vec<String>) -> (c: CodeChunk)
    ensures
        is_extracted_chunk(c, file_path@, id_name(seq![opt_view(function_name), opt_view(class_name)]), code@, chunk_type@, views(deps@)),
        c.kind == CodeChunkKind::Rust(RustFields { function_name, class_name, parameters, return_type, namespace }),
{
    let mut names: Vec<Option<String>> = Vec::new();
    names.push(copy_opt(&function_name));
    names.push(copy_opt(&class_name));
    assert(opt_views(names@) =~= seq![opt_view(function_name), opt_view(class_name)]);
    let name = name_or_unknown(&names);
    base_chunk(file_path, name.as_str(), code, chunk_type, deps, CodeChunkKind::Rust(RustFields { function_name, class_name, parameters, return_type, namespace }))
}

/// A Python chunk, identified by its function name, else its class name,
/// else its type-alias name.
pub fn make_python_chunk(file_path: &str, fields: PythonFields, code: String, chunk_type: &str, deps: &Vec<String>) -> (c: CodeChunk)
    ensures
        is_extracted_chunk(c, file_path@, id_name(seq![opt_view(fields.function_name), opt_view(fields.class_name), opt_view(fields.alias_name)]), code@, chunk_type@, views(deps@)),
        c.kind == CodeChunkKind::Python(fields),
{
    let mut names: Vec<Option<String>> = Vec::new();
    names.push(copy_opt(&fields.function_name));
    names.push(copy_opt(&fields.class_name));
    names.push(copy_opt(&fields.alias_name));
    assert(opt_views(names@) =~= seq![opt_view(fields.function_name), opt_view(fields.class_name), opt_view(fields.alias_name)]);
    let name = name_or_unknown(&names);
    base_chunk(file_path, name.as_str(), code, chunk_type, deps, CodeChunkKind::Python(fields))
}

/// A React component chunk, identified by its component name.
pub fn create_react_chunk(file_path: &str, component_name: Option<String>, is_functional: bool, props: Vec<Parameter>, hooks_used: Vec<String>, code: String, chunk_type: &str, deps: &Vec<String>, parent_component: Option<String>, is_exported: bool) -> (c: CodeChunk)
    ensures
        is_extracted_chunk(c, file_path@, id_name(seq![opt_view(component_name)]), code@, chunk_type@, views(deps@)),
        c.kind == CodeChunkKind::React(ReactFields { component_name, is_functional, hooks_used, props, is_exported, component_type: None, parent_component }),
{
    let mut names: Vec<Option<String>> = Vec::new();
    names.push(copy_opt(&component_name));
    assert(opt_views(names@) =~= seq![opt_view(component_name)]);
    let name = name_or_unknown(&names);
    base_chunk(file_path, name.as_str(), code, chunk_type, deps, CodeChunkKind::React(ReactFields { component_name, is_functional, hooks_used, props, is_exported, component_type: None, parent_component }))
}

/// A C# chunk, identified by its class name, else its interface name, else
/// its method name.
pub fn make_csharp_chunk(file_path: &str, fields: CSharpFields, code: String, chunk_type: &str, deps: &Vec<String>) -> (c: CodeChunk)
    ensures
        is_extracted_chunk(c, file_path@, id_name(seq![opt_view(fields.class_name), opt_view(fields.interface_name), opt_view(fields.function_name)]), code@, chunk_type@, views(deps@)),
        c.kind == CodeChunkKind::CSharp(fields),
{
    let mut names: Vec<Option<String>> = Vec::new();
    names.push(copy_opt(&fields.class_name));
    names.push(copy_opt(&fields.interface_name));
    names.push(copy_opt(&fields.function_name));
    assert(opt_views(names@) =~= seq![opt_view(fields.class_name), opt_view(fields.interface_name), opt_view(fields.function_name)]);
    let name = name_or_unknown(&names);
    base_chunk(file_path, name.as_str(), code, chunk_type, deps, CodeChunkKind::CSharp(fields))
}

} // verus!
