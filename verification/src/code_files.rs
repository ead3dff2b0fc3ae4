//! Chunking one source file: the chunker of the file's language (by its
//! lower-cased extension) over the decoded text; when that gives nothing,
//! the generic pieces of the text; then every chunk stamped with the
//! repository, the file's name and its cleaned code.
use vstd::prelude::*;
use vstd::string::StringSliceAdditionalSpecFns;
use crate::code_chunk::CodeChunk;
use crate::chunk_types::CodeChunkKind;
use crate::languages::{
    Language, language_of, language_for_extension, path_extension, path_extension_of, file_name_of,
    path_file_name, file_text, decode_file_text,
};
use crate::sql::{lower_spec, to_lowercase, new_uuid_string};
use crate::patterns::{cleaned_code, clean_code};
use crate::seqtext::views;
use crate::syntax::NodeView;
use crate::c_chunks::{c_syntax_spec, c_chunks_ok, c_deps, chunk_c_source};
use crate::cpp_chunks::{cpp_syntax_spec, cpp_chunks_ok, chunk_cpp_source};
use crate::csharp_chunks::{csharp_syntax_spec, cs_chunks_ok, cs_deps, chunk_csharp_source};
use crate::java_chunks::{java_chunks_ok, java_deps, java_package, chunk_java_source};
use crate::syntax::java_syntax_spec;
use crate::js_chunks::{js_syntax_spec, js_chunks_ok, js_deps, chunk_js_source};
use crate::rust_chunks::{rust_syntax_spec, rust_chunks_ok, rust_deps, chunk_rust_source};
use crate::python_chunks::{python_syntax_spec, py_chunks_ok, py_deps, chunk_python_source};
use crate::sql_tree::{sql_source_chunks_ok, chunk_sql_source};
use crate::react_chunks::{tsx_syntax_spec, react_chunks_ok, chunk_react_source};

verus! {

/// `r` holds what the chunker of `lang` gives for source text `text`
/// (TSX and JSX files go to the React chunker; plain TypeScript files have
/// no chunker here and give nothing).
pub open spec fn language_chunks_ok(lang: Language, r: Seq<CodeChunk>, text: Seq<char>, file_path: Seq<char>) -> bool {
    let src = vstd::utf8::encode_utf8(text);
    match lang {
        Language::C => match c_syntax_spec(src) {
            Some(t) => c_chunks_ok(r, t, src, file_path, c_deps(t, src, t.len() as int)),
            None => r.len() == 0,
        },
        Language::Cpp => match cpp_syntax_spec(src) {
            Some(t) => cpp_chunks_ok(r, t, src, file_path, c_deps(t, src, t.len() as int)),
            None => r.len() == 0,
        },
        Language::CSharp => match csharp_syntax_spec(src) {
            Some(t) => cs_chunks_ok(r, t, src, file_path, cs_deps(t, src, t.len() as int)),
            None => r.len() == 0,
        },
        Language::Java => match java_syntax_spec(src) {
            Some(t) => java_chunks_ok(r, t, src, file_path, java_deps(t, src, t.len() as int), java_package(t, src)),
            None => r.len() == 0,
        },
        Language::JavaScript => match js_syntax_spec(src) {
            Some(t) => js_chunks_ok(r, t, src, file_path, js_deps(t, src, t.len() as int)),
            None => r.len() == 0,
        },
        Language::Rust => match rust_syntax_spec(src) {
            Some(t) => rust_chunks_ok(r, t, src, file_path, rust_deps(t, src, t.len() as int)),
            None => r.len() == 0,
        },
        Language::Python => match python_syntax_spec(src) {
            Some(t) => py_chunks_ok(r, t, src, file_path, py_deps(t, src, t.len() as int)),
            None => r.len() == 0,
        },
        Language::Sql => sql_source_chunks_ok(r, text, file_path),
        Language::TypeScriptTsx => match tsx_syntax_spec(src) {
            Some(t) => react_chunks_ok(r, t, src, file_path, js_deps(t, src, t.len() as int)),
            None => r.len() == 0,
        },
        Language::TypeScript => r.len() == 0,
    }
}

/// The chunks the chunker of `lang` gives for source text `text`.
pub fn chunk_with_language(lang: Language, text: &str, file_path: &str) -> (r: Vec<CodeChunk>)
    ensures
        language_chunks_ok(lang, r@, text@, file_path@),
{
    let src = text.as_bytes();
    match lang {
        Language::C => chunk_c_source(src, file_path),
        Language::Cpp => chunk_cpp_source(src, file_path),
        Language::CSharp => chunk_csharp_source(src, file_path),
        Language::Java => chunk_java_source(src, file_path),
        Language::JavaScript => chunk_js_source(src, file_path),
        Language::Rust => chunk_rust_source(src, file_path),
        Language::Python => chunk_python_source(src, file_path),
        Language::Sql => chunk_sql_source(text, file_path),
        Language::TypeScriptTsx => chunk_react_source(src, file_path),
        Language::TypeScript => Vec::new(),
    }
}

/// Whether generic chunking applies to a text: it is not empty and holds
/// no NUL character.
pub open spec fn generic_applies(text: Seq<char>) -> bool {
    text.len() > 0 && !text.contains('\0')
}

/// `r` holds one generic chunk per piece, in order, each with a fresh id.
pub open spec fn generic_chunks_ok(r: Seq<CodeChunk>, text: Seq<char>, repo_name: Seq<char>, file_name: Seq<char>, pieces: Seq<Seq<char>>) -> bool {
    if generic_applies(text) {
        &&& r.len() == pieces.len()
        &&& forall|k: int| 0 <= k < r.len() ==> {
            &&& crate::sql::is_uuid_v4_text((#[trigger] r[k]).id@, true)
            &&& r[k].repo_name@ == repo_name
            &&& r[k].file_name@ == file_name
            &&& r[k].code@ == pieces[k]
            &&& r[k].chunk_type@ == "generic"@
            &&& r[k].dependencies@.len() == 0
            &&& r[k].kind == CodeChunkKind::Generic
        }
    } else {
        r.len() == 0
    }
}

/// The generic chunks of a text: one per piece the token splitter cut it
/// into (`pieces`); none for an empty text or one holding a NUL.
pub fn generic_code_chunks(text: &str, repo_name: &str, file_name: &str, pieces: &Vec<String>) -> (r: Vec<CodeChunk>)
    ensures
        generic_chunks_ok(r@, text@, repo_name@, file_name@, views(pieces@)),
{
    let chars = crate::text::chars_of(text);
    let mut has_nul = false;
    let mut i: usize = 0;
    while i < chars.len()
        invariant
            i <= chars@.len(),
            has_nul == chars@.take(i as int).contains('\0'),
        decreases chars@.len() - i,
    {
        let ghost pre = chars@.take(i as int);
        let ghost post = chars@.take(i + 1);
        assert(post =~= pre.push(chars@[i as int]));
        proof {
            if chars@[i as int] == '\0' {
                assert(post[i as int] == '\0');
            } else if pre.contains('\0') {
                let k = choose|k: int| 0 <= k < pre.len() && pre[k] == '\0';
                assert(post[k] == '\0');
            } else {
                assert forall|k: int| 0 <= k < post.len() implies post[k] != '\0' by {
                    if k < i {
                        assert(post[k] == pre[k]);
                    }
                }
            }
        }
        if chars[i] == '\0' {
            has_nul = true;
        }
        i += 1;
    }
    assert(chars@.take(chars@.len() as int) =~= chars@);
    let mut out: Vec<CodeChunk> = Vec::new();
    if chars.len() == 0 || has_nul {
        return out;
    }
    let mut k: usize = 0;
    while k < pieces.len()
        invariant
            k <= pieces@.len(),
            out@.len() == k,
            forall|q: int| 0 <= q < k ==> {
                &&& crate::sql::is_uuid_v4_text((#[trigger] out@[q]).id@, true)
                &&& out@[q].repo_name@ == repo_name@
                &&& out@[q].file_name@ == file_name@
                &&& out@[q].code@ == views(pieces@)[q]
                &&& out@[q].chunk_type@ == "generic"@
                &&& out@[q].dependencies@.len() == 0
                &&& out@[q].kind == CodeChunkKind::Generic
            },
        decreases pieces@.len() - k,
    {
        let id = new_uuid_string();
        out.push(CodeChunk::generic(id.as_str(), repo_name, file_name, pieces[k].as_str()));
        k += 1;
    }
    out
}

/// Whether a chunk's code is short enough to clean (far beyond any text
/// that fits in memory).
pub open spec fn cleanable(code: Seq<char>) -> bool {
    code.len() < usize::MAX / 4
}

/// `r` is `chunks` stamped with the repository and file name, each code
/// cleaned (see `clean_code`).
pub open spec fn finished_ok(r: Seq<CodeChunk>, chunks: Seq<CodeChunk>, repo_name: Seq<char>, file_name: Seq<char>) -> bool {
    &&& r.len() == chunks.len()
    &&& forall|k: int| 0 <= k < r.len() ==> {
        &&& (#[trigger] r[k]).id@ == chunks[k].id@
        &&& r[k].repo_name@ == repo_name
        &&& r[k].file_name@ == file_name
        &&& r[k].code@ == if cleanable(chunks[k].code@) {
            cleaned_code(chunks[k].code@)
        } else {
            chunks[k].code@
        }
        &&& r[k].chunk_type@ == chunks[k].chunk_type@
        &&& views(r[k].dependencies@) == views(chunks[k].dependencies@)
        &&& r[k].created_at@ == chunks[k].created_at@
        &&& r[k].kind == chunks[k].kind
    }
}

/// Stamps chunks with the repository and the file's name and cleans their
/// code.
pub fn finish_code_chunks(chunks: Vec<CodeChunk>, repo_name: &str, file_name: &str) -> (r: Vec<CodeChunk>)
    ensures
        finished_ok(r@, chunks@, repo_name@, file_name@),
{
    let ghost orig = chunks@;
    let mut rest = chunks;
    let mut out: Vec<CodeChunk> = Vec::new();
    let n0 = rest.len();
    let mut k: usize = 0;
    assert(orig.skip(0) =~= orig);
    while rest.len() > 0
        invariant
            k <= orig.len(),
            n0 == orig.len(),
            k + rest@.len() == orig.len(),
            rest@ == orig.skip(k as int),
            finished_ok(out@, orig.take(k as int), repo_name@, file_name@),
        decreases rest@.len(),
    {
        let c = rest.remove(0);
        assert(orig.skip(k as int).skip(1) =~= orig.skip(k + 1));
        assert(c == orig[k as int]);
        let n = crate::text::chars_of(c.code.as_str()).len();
        let code = if n < usize::MAX / 4 {
            assert((n + 1) * 4 <= usize::MAX) by (nonlinear_arith)
                requires
                    n < usize::MAX / 4,
            ;
            clean_code(c.code.as_str())
        } else {
            c.code.clone()
        };
        let ghost want = orig.take(k + 1);
        let ghost before = out@;
        out.push(CodeChunk {
            id: c.id,
            repo_name: repo_name.to_owned(),
            file_name: file_name.to_owned(),
            code,
            chunk_type: c.chunk_type,
            dependencies: c.dependencies,
            created_at: c.created_at,
            kind: c.kind,
        });
        assert forall|q: int| 0 <= q < out@.len() implies ({
            &&& (#[trigger] out@[q]).id@ == want[q].id@
            &&& out@[q].repo_name@ == repo_name@
            &&& out@[q].file_name@ == file_name@
            &&& out@[q].code@ == if cleanable(want[q].code@) {
                cleaned_code(want[q].code@)
            } else {
                want[q].code@
            }
            &&& out@[q].chunk_type@ == want[q].chunk_type@
            &&& views(out@[q].dependencies@) == views(want[q].dependencies@)
            &&& out@[q].created_at@ == want[q].created_at@
            &&& out@[q].kind == want[q].kind
        }) by {
            if q < k {
                assert(out@[q] == before[q]);
                assert(want[q] == orig.take(k as int)[q]);
            }
        }
        k += 1;
    }
    assert(orig.take(orig.len() as int) =~= orig);
    out
}

/// The lower-cased extension a file is dispatched by (empty without one).
pub open spec fn extension_key(file_path: Seq<char>) -> Seq<char> {
    match path_extension(file_path) {
        Some(e) => lower_spec(e),
        None => Seq::empty(),
    }
}

pub open spec fn base_file_name(file_path: Seq<char>) -> Seq<char> {
    match file_name_of(file_path) {
        Some(n) => n,
        None => Seq::empty(),
    }
}

/// `r` holds the chunks of one source file: those of its language's
/// chunker over its decoded text when there are any, else the generic
/// chunks of `pieces` (the token splitter's pieces of the text); stamped
/// with the repository and the file's name (`file_name_override` when
/// given), their code cleaned.
pub open spec fn single_file_ok(r: Seq<CodeChunk>, file_path: Seq<char>, bytes: Seq<u8>, repo_name: Seq<char>, file_name_override: Option<Seq<char>>, pieces: Seq<Seq<char>>) -> bool {
    let text = file_text(bytes);
    let final_name = match file_name_override {
        Some(n) => n,
        None => base_file_name(file_path),
    };
    exists|raw: Seq<CodeChunk>, generic: Seq<CodeChunk>| {
        &&& match language_of(extension_key(file_path)) {
            Some(lang) => language_chunks_ok(lang, raw, text, file_path),
            None => raw.len() == 0,
        }
        &&& generic_chunks_ok(generic, text, repo_name, base_file_name(file_path), pieces)
        &&& if raw.len() > 0 {
            finished_ok(r, raw, repo_name, final_name)
        } else {
            finished_ok(r, generic, repo_name, final_name)
        }
    }
}

/// The chunks of one source file given its bytes (see `single_file_ok`).
pub fn chunk_single_code_file(file_path: &str, bytes: &[u8], repo_name: &str, file_name_override: Option<&str>, pieces: &Vec<String>) -> (r: Vec<CodeChunk>)
    ensures
        single_file_ok(r@, file_path@, bytes@, repo_name@, match file_name_override {
            Some(n) => Some(n@),
            None => None,
        }, views(pieces@)),
{
    let ext = match path_extension_of(file_path) {
        Some(e) => to_lowercase(e.as_str()),
        None => String::new(),
    };
    let text = decode_file_text(bytes);
    let raw = match language_for_extension(ext.as_str()) {
        Some(lang) => chunk_with_language(lang, text.as_str(), file_path),
        None => Vec::new(),
    };
    let base = match path_file_name(file_path) {
        Some(n) => n,
        None => String::new(),
    };
    let final_name = match file_name_override {
        Some(n) => n.to_owned(),
        None => base.clone(),
    };
    let generic = generic_code_chunks(text.as_str(), repo_name, base.as_str(), pieces);
    let ghost rawv = raw@;
    let ghost genv = generic@;
    let ghost ov = match file_name_override {
        Some(n) => Some(n@),
        None => None::<Seq<char>>,
    };
    assert(ext@ == extension_key(file_path@));
    assert(base@ == base_file_name(file_path@));
    assert(final_name@ == match ov {
        Some(n) => n,
        None => base_file_name(file_path@),
    });
    assert(match language_of(extension_key(file_path@)) {
        Some(lang) => language_chunks_ok(lang, rawv, file_text(bytes@), file_path@),
        None => rawv.len() == 0,
    });
    assert(generic_chunks_ok(genv, file_text(bytes@), repo_name@, base_file_name(file_path@), views(pieces@)));
    if raw.len() > 0 {
        let r = finish_code_chunks(raw, repo_name, final_name.as_str());
        assert(finished_ok(r@, rawv, repo_name@, final_name@));
        r
    } else {
        let r = finish_code_chunks(generic, repo_name, final_name.as_str());
        assert(finished_ok(r@, genv, repo_name@, final_name@));
        r
    }
}

} // verus!
