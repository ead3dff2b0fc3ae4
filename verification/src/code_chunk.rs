//! A code chunk: the base metadata shared by every chunker plus the
//! language-specific payload, and the embedding text built from both.
use vstd::prelude::*;
use crate::chunk_types::{
    CodeChunkKind, Parameter, opt_view, opt_line, params_view, params_typed, param_types,
    python_prop_raw, typed_param, kind_parts, same_kind, copy_kind, copy_strings, cond_line, c_embedding_parts,
    cpp_embedding_parts, csharp_embedding_parts, java_embedding_parts, js_embedding_parts,
    ts_embedding_parts, react_embedding_parts, rust_embedding_parts, python_embedding_parts,
    sql_embedding_parts,
};
use crate::seqtext::{join, join_strings, keep_nonempty, nonempty_only, push_string, append_strings, views};
use crate::text::{concat_str, str_eq};
use crate::normalize::{normalize_code, normalize_code_spec};

verus! {

/// Full code chunk: base metadata plus the per-language payload in `kind`.
#[derive(Debug, Clone, PartialEq)]
pub struct CodeChunk {
    pub id: String,
    pub repo_name: String,
    pub file_name: String,
    pub code: String,
    pub chunk_type: String,
    pub dependencies: Vec<String>,
    pub created_at: String,
    pub kind: CodeChunkKind,
}

/// An ASCII decimal digit.
pub open spec fn is_digit(c: char) -> bool {
    '0' <= c <= '9'
}

/// The year part of a timestamp: four digits, or (outside years 0 to 9999)
/// a sign followed by at least four digits.
pub open spec fn year_shape(y: Seq<char>) -> bool {
    ||| (y.len() == 4 && forall|i: int| 0 <= i < 4 ==> is_digit(#[trigger] y[i]))
    ||| (y.len() >= 5 && (y[0] == '+' || y[0] == '-') && forall|i: int|
        1 <= i < y.len() ==> is_digit(#[trigger] y[i]))
}

/// `YYYY-MM-DDTHH:MM:SSZ`: a year, then two-digit month, day, hour, minute
/// and second with their separators, and a final `Z`.
pub open spec fn utc_stamp_shape(s: Seq<char>) -> bool {
    let n = s.len() as int;
    let t = s.subrange(n - 16, n);
    &&& n >= 20
    &&& year_shape(s.subrange(0, n - 16))
    &&& t[0] == '-' && t[3] == '-' && t[6] == 'T' && t[9] == ':' && t[12] == ':' && t[15] == 'Z'
    &&& is_digit(t[1]) && is_digit(t[2]) && is_digit(t[4]) && is_digit(t[5])
    &&& is_digit(t[7]) && is_digit(t[8]) && is_digit(t[10]) && is_digit(t[11])
    &&& is_digit(t[13]) && is_digit(t[14])
}

/// Current UTC time formatted as `YYYY-MM-DDTHH:MM:SSZ`, through chrono's
/// `Utc::now` and `DateTime::format`. The value depends on the clock, so
/// only its shape is stated: chrono writes `%Y` as four zero-padded digits
/// for years 0 to 9999 and with a sign otherwise, and every other field as
/// two zero-padded digits.
#[verifier::external_body]
pub fn now_iso() -> (s: String)
    ensures
        utc_stamp_shape(s@),
{
    chrono::Utc::now().format("%Y-%m-%dT%H:%M:%SZ").to_string()
}

/// The `Dependencies:` line, present when there is at least one dependency.
pub open spec fn deps_line(deps: Seq<Seq<char>>) -> Seq<Seq<char>> {
    cond_line(deps.len() > 0, "Dependencies: "@ + join(deps, ", "@))
}

/// The candidate lines of a chunk's embedding text, in order.
pub open spec fn embedding_lines(c: CodeChunk) -> Seq<Seq<char>> {
    seq!["Repo Name: "@ + c.repo_name@, "File Name: "@ + c.file_name@] + nonempty_only(
        kind_parts(c.kind),
    ) + seq!["Code:\n"@ + c.code@] + deps_line(views(c.dependencies@))
}

/// The embedding text: the non-empty candidate lines joined by newlines.
pub open spec fn embedding_text(c: CodeChunk) -> Seq<char> {
    join(nonempty_only(embedding_lines(c)), "\n"@)
}

proof fn lemma_opt_line_same(p: Seq<char>, a: Option<String>, b: Option<String>)
    requires
        opt_view(a) == opt_view(b),
    ensures
        opt_line(p, a) == opt_line(p, b),
{
    match a {
        Some(s) => {
            assert(b is Some);
        },
        None => {},
    }
}

proof fn lemma_params_same(x: Seq<Parameter>, y: Seq<Parameter>)
    requires
        params_view(x) == params_view(y),
    ensures
        x.len() == y.len(),
        params_typed(x) == params_typed(y),
        param_types(x) == param_types(y),
        Seq::new(x.len(), |i: int| python_prop_raw(x[i])) == Seq::new(
            y.len(),
            |i: int| python_prop_raw(y[i]),
        ),
{
    assert(params_view(x).len() == x.len());
    assert forall|i: int| 0 <= i < x.len() implies x[i].name@ == y[i].name@ && x[i].param_type@
        == y[i].param_type@ by {
        assert(params_view(x)[i] == params_view(y)[i]);
    }
    assert(Seq::new(x.len(), |i: int| typed_param(x[i])) =~= Seq::new(
        y.len(),
        |i: int| typed_param(y[i]),
    ));
    assert(Seq::new(x.len(), |i: int| crate::text::trim_spec(x[i].param_type@)) =~= Seq::new(
        y.len(),
        |i: int| crate::text::trim_spec(y[i].param_type@),
    ));
    assert(Seq::new(x.len(), |i: int| python_prop_raw(x[i])) =~= Seq::new(
        y.len(),
        |i: int| python_prop_raw(y[i]),
    ));
}

/// Payloads with the same text in every field give the same embedding lines.
pub proof fn lemma_same_kind_parts(a: CodeChunkKind, b: CodeChunkKind)
    requires
        same_kind(a, b),
    ensures
        kind_parts(a) == kind_parts(b),
{
    match (a, b) {
        (CodeChunkKind::C(x), CodeChunkKind::C(y)) => {
            lemma_opt_line_same("Namespace: "@, x.namespace, y.namespace);
            lemma_opt_line_same("Function: "@, x.function_name, y.function_name);
            lemma_opt_line_same("Return Type: "@, x.return_type, y.return_type);
            lemma_params_same(x.parameters@, y.parameters@);
        },
        (CodeChunkKind::Cpp(x), CodeChunkKind::Cpp(y)) => {
            lemma_opt_line_same("Namespace: "@, x.namespace, y.namespace);
            lemma_opt_line_same("Class: "@, x.class_name, y.class_name);
            lemma_opt_line_same("Function: "@, x.function_name, y.function_name);
            lemma_opt_line_same("Return Type: "@, x.return_type, y.return_type);
            lemma_params_same(x.parameters@, y.parameters@);
        },
        (CodeChunkKind::CSharp(x), CodeChunkKind::CSharp(y)) => {
            lemma_opt_line_same("Class: "@, x.class_name, y.class_name);
            lemma_opt_line_same("Interface: "@, x.interface_name, y.interface_name);
            lemma_opt_line_same("Function: "@, x.function_name, y.function_name);
            lemma_opt_line_same("Return Type: "@, x.return_type, y.return_type);
            lemma_params_same(x.parameters@, y.parameters@);
            lemma_params_same(x.properties@, y.properties@);
        },
        (CodeChunkKind::Java(x), CodeChunkKind::Java(y)) => {
            lemma_opt_line_same("Namespace: "@, x.namespace, y.namespace);
            lemma_opt_line_same("Class: "@, x.class_name, y.class_name);
            lemma_opt_line_same("Function: "@, x.function_name, y.function_name);
            lemma_opt_line_same("Return Type: "@, x.return_type, y.return_type);
            lemma_params_same(x.parameters@, y.parameters@);
        },
        (CodeChunkKind::JavaScript(x), CodeChunkKind::JavaScript(y)) => {
            lemma_opt_line_same("Class: "@, x.class_name, y.class_name);
            lemma_opt_line_same("Function: "@, x.function_name, y.function_name);
            lemma_opt_line_same("Return Type: "@, x.return_type, y.return_type);
            lemma_params_same(x.parameters@, y.parameters@);
        },
        (CodeChunkKind::TypeScript(x), CodeChunkKind::TypeScript(y)) => {
            lemma_opt_line_same("Class: "@, x.class_name, y.class_name);
            lemma_opt_line_same("Function: "@, x.function_name, y.function_name);
            lemma_opt_line_same("Return Type: "@, x.return_type, y.return_type);
            lemma_params_same(x.parameters@, y.parameters@);
        },
        (CodeChunkKind::React(x), CodeChunkKind::React(y)) => {
            lemma_opt_line_same("Component: "@, x.component_name, y.component_name);
            lemma_opt_line_same("Parent Component: "@, x.parent_component, y.parent_component);
            lemma_params_same(x.props@, y.props@);
            assert(x.hooks_used@.len() == views(x.hooks_used@).len());
        },
        (CodeChunkKind::Rust(x), CodeChunkKind::Rust(y)) => {
            lemma_opt_line_same("Namespace: "@, x.namespace, y.namespace);
            lemma_opt_line_same("Class: "@, x.class_name, y.class_name);
            lemma_opt_line_same("Function: "@, x.function_name, y.function_name);
            lemma_opt_line_same("Return Type: "@, x.return_type, y.return_type);
            lemma_params_same(x.parameters@, y.parameters@);
        },
        (CodeChunkKind::Python(x), CodeChunkKind::Python(y)) => {
            lemma_opt_line_same("Class: "@, x.class_name, y.class_name);
            lemma_opt_line_same("Function: "@, x.function_name, y.function_name);
            lemma_opt_line_same("Type Alias: "@, x.alias_name, y.alias_name);
            lemma_opt_line_same("Alias Target: "@, x.alias_target, y.alias_target);
            lemma_opt_line_same("Return Type: "@, x.return_type, y.return_type);
            lemma_opt_line_same("Type Parameters: "@, x.type_parameters, y.type_parameters);
            lemma_opt_line_same("Bases: "@, x.bases, y.bases);
            lemma_params_same(x.parameters@, y.parameters@);
            lemma_params_same(x.properties@, y.properties@);
            assert(x.decorators@.len() == views(x.decorators@).len());
        },
        (CodeChunkKind::Sql(x), CodeChunkKind::Sql(y)) => {
            lemma_opt_line_same("Database: "@, x.database_name, y.database_name);
            lemma_opt_line_same("Statement: "@, x.statement_type, y.statement_type);
            lemma_opt_line_same("Schema: "@, x.schema_name, y.schema_name);
            lemma_opt_line_same("Object: "@, x.object_name, y.object_name);
        },
        _ => {},
    }
}

impl CodeChunk {
    /// A chunk with no language-specific payload, stamped with the current
    /// time (what the clock reads is not stated; see `generic_at`).
    pub fn generic(id: &str, repo_name: &str, file_name: &str, code: &str) -> (c: Self)
        ensures
            c.id@ == id@,
            c.repo_name@ == repo_name@,
            c.file_name@ == file_name@,
            c.code@ == code@,
            c.chunk_type@ == "generic"@,
            c.dependencies@.len() == 0,
            c.kind == CodeChunkKind::Generic,
            utc_stamp_shape(c.created_at@),
    {
        let now = now_iso();
        Self::generic_at(id, repo_name, file_name, code, now.as_str())
    }

    /// A chunk with no language-specific payload, stamped with the given
    /// creation time.
    pub fn generic_at(id: &str, repo_name: &str, file_name: &str, code: &str, created_at: &str) -> (c: Self)
        ensures
            c.id@ == id@,
            c.repo_name@ == repo_name@,
            c.file_name@ == file_name@,
            c.code@ == code@,
            c.chunk_type@ == "generic"@,
            c.dependencies@.len() == 0,
            c.kind == CodeChunkKind::Generic,
            c.created_at@ == created_at@,
    {
        CodeChunk {
            id: id.to_owned(),
            repo_name: repo_name.to_owned(),
            file_name: file_name.to_owned(),
            code: code.to_owned(),
            chunk_type: "generic".to_owned(),
            dependencies: Vec::new(),
            created_at: created_at.to_owned(),
            kind: CodeChunkKind::Generic,
        }
    }

    /// Whether this chunk holds what was left of a file after the chunkers
    /// took their pieces out.
    pub fn is_file_remainder(&self) -> (r: bool)
        ensures
            r == (self.chunk_type@ == "file_remainder"@),
    {
        str_eq(self.chunk_type.as_str(), "file_remainder")
    }

    /// A copy with a new id and new (normalized) code; every other field is kept.
    pub fn split(&self, new_id: &str, new_code: &str) -> (r: Self)
        ensures
            r.id@ == new_id@,
            r.code@ == normalize_code_spec(new_code@),
            r.repo_name@ == self.repo_name@,
            r.file_name@ == self.file_name@,
            r.chunk_type@ == self.chunk_type@,
            views(r.dependencies@) == views(self.dependencies@),
            r.created_at@ == self.created_at@,
            same_kind(r.kind, self.kind),
            kind_parts(r.kind) == kind_parts(self.kind),
    {
        let r = CodeChunk {
            id: new_id.to_owned(),
            repo_name: self.repo_name.clone(),
            file_name: self.file_name.clone(),
            code: normalize_code(new_code),
            chunk_type: self.chunk_type.clone(),
            dependencies: copy_strings(&self.dependencies),
            created_at: self.created_at.clone(),
            kind: copy_kind(&self.kind),
        };
        proof {
            lemma_same_kind_parts(r.kind, self.kind);
        }
        r
    }

    /// The per-language middle lines of the embedding text.
    pub fn kind_embedding_parts(&self) -> (v: Vec<String>)
        ensures
            views(v@) == kind_parts(self.kind),
    {
        match &self.kind {
            CodeChunkKind::Generic => {
                let v: Vec<String> = Vec::new();
                assert(views(v@) =~= Seq::<Seq<char>>::empty());
                v
            },
            CodeChunkKind::C(f) => c_embedding_parts(f),
            CodeChunkKind::Cpp(f) => cpp_embedding_parts(f),
            CodeChunkKind::CSharp(f) => csharp_embedding_parts(f),
            CodeChunkKind::Java(f) => java_embedding_parts(f),
            CodeChunkKind::JavaScript(f) => js_embedding_parts(f),
            CodeChunkKind::TypeScript(f) => ts_embedding_parts(f),
            CodeChunkKind::React(f) => react_embedding_parts(f),
            CodeChunkKind::Rust(f) => rust_embedding_parts(f),
            CodeChunkKind::Python(f) => python_embedding_parts(f),
            CodeChunkKind::Sql(f) => sql_embedding_parts(f),
        }
    }

    /// Embedding text built from the base fields and the per-language lines.
    pub fn chunk_embedding_text(&self) -> (r: String)
        ensures
            r@ == embedding_text(*self),
    {
        let mut parts: Vec<String> = Vec::new();
        push_string(&mut parts, concat_str("Repo Name: ", self.repo_name.as_str()));
        push_string(&mut parts, concat_str("File Name: ", self.file_name.as_str()));
        let middle = keep_nonempty(&self.kind_embedding_parts());
        append_strings(&mut parts, &middle);
        push_string(&mut parts, concat_str("Code:\n", self.code.as_str()));
        if self.dependencies.len() > 0 {
            let deps = join_strings(&self.dependencies, ", ");
            push_string(&mut parts, concat_str("Dependencies: ", deps.as_str()));
        }
        assert(views(parts@) =~= embedding_lines(*self));
        let kept = keep_nonempty(&parts);
        join_strings(&kept, "\n")
    }
}


/// `x` is a piece of chunk `c` with text `code`: a fresh id, the code
/// normalized, and every other field of `c`.
pub open spec fn is_split_of(x: CodeChunk, c: CodeChunk, code: Seq<char>) -> bool {
    &&& crate::sql::is_uuid_v4_text(x.id@, true)
    &&& x.code@ == normalize_code_spec(code)
    &&& x.repo_name@ == c.repo_name@
    &&& x.file_name@ == c.file_name@
    &&& x.chunk_type@ == c.chunk_type@
    &&& views(x.dependencies@) == views(c.dependencies@)
    &&& x.created_at@ == c.created_at@
    &&& same_kind(x.kind, c.kind)
}

/// How many chunks a chunk becomes: itself when its text splits into at
/// most one piece, else one per piece.
pub open spec fn piece_count(p: Seq<Seq<char>>) -> int {
    if p.len() <= 1 {
        1
    } else {
        p.len() as int
    }
}

/// `r` holds, in order, each chunk unchanged when its splitter pieces are at
/// most one, else one piece-chunk per piece.
pub open spec fn split_out_ok(r: Seq<CodeChunk>, chunks: Seq<CodeChunk>, pieces: Seq<Seq<Seq<char>>>) -> bool
    decreases chunks.len(),
{
    if chunks.len() == 0 {
        r.len() == 0
    } else {
        let c = chunks.last();
        let p = pieces[chunks.len() - 1];
        let m = piece_count(p);
        &&& r.len() >= m
        &&& split_out_ok(r.take(r.len() - m), chunks.drop_last(), pieces)
        &&& if p.len() <= 1 {
            r.last() == c
        } else {
            forall|k: int| 0 <= k < m ==> is_split_of(#[trigger] r[r.len() - m + k], c, p[k])
        }
    }
}

pub open spec fn piece_views(v: Seq<Vec<String>>) -> Seq<Seq<Seq<char>>> {
    Seq::new(v.len(), |i: int| views(v[i]@))
}

/// Splits the chunks whose text the splitter cut into several pieces
/// (`pieces[i]` is the splitter's output for `chunks[i].code`): each piece
/// becomes a chunk of its own with a fresh id, keeping the chunk's kind,
/// repository, file, type, dependencies and creation time; a chunk cut into
/// at most one piece is kept as it is.
pub fn split_oversized_code_chunks(chunks: Vec<CodeChunk>, pieces: &Vec<Vec<String>>) -> (r: Vec<CodeChunk>)
    requires
        pieces@.len() == chunks@.len(),
    ensures
        split_out_ok(r@, chunks@, piece_views(pieces@)),
{
    let ghost all = chunks@;
    let ghost pv = piece_views(pieces@);
    let mut rest = chunks;
    let mut out: Vec<CodeChunk> = Vec::new();
    let n = rest.len();
    let mut i: usize = 0;
    while i < n
        invariant
            i <= n,
            n == all.len(),
            pieces@.len() == n,
            pv == piece_views(pieces@),
            rest@ == all.skip(i as int),
            split_out_ok(out@, all.take(i as int), pv),
        decreases n - i,
    {
        let c = rest.remove(0);
        assert(c == all[i as int]);
        assert(rest@ =~= all.skip(i + 1));
        let ghost before = out@;
        let ghost p = pv[i as int];
        let ps = &pieces[i];
        assert(views(ps@) == p);
        assert(all.take(i + 1).drop_last() =~= all.take(i as int));
        assert(all.take(i + 1).last() == c);
        if ps.len() <= 1 {
            out.push(c);
            assert(out@.take(out@.len() - 1) =~= before);
        } else {
            let mut k: usize = 0;
            while k < ps.len()
                invariant
                    k <= ps@.len(),
                    views(ps@) == p,
                    p.len() > 1,
                    out@.len() == before.len() + k,
                    out@.take(before.len() as int) == before,
                    forall|q: int| 0 <= q < k ==> is_split_of(#[trigger] out@[before.len() + q], c, p[q]),
                decreases ps@.len() - k,
            {
                let id = crate::sql::new_uuid_string();
                let x = c.split(id.as_str(), ps[k].as_str());
                assert(ps@[k as int]@ == p[k as int]);
                let ghost o = out@;
                out.push(x);
                assert(out@.take(before.len() as int) =~= o.take(before.len() as int));
                assert forall|q: int| 0 <= q < k + 1 implies is_split_of(#[trigger] out@[before.len() + q], c, p[q]) by {
                    if q < k {
                        assert(out@[before.len() + q] == o[before.len() + q]);
                    }
                }
                k += 1;
            }
            assert(out@.take(out@.len() - piece_count(p)) =~= before);
            assert forall|q: int| 0 <= q < piece_count(p) implies is_split_of(#[trigger] out@[out@.len() - piece_count(p) + q], c, p[q]) by {
                assert(out@.len() - piece_count(p) + q == before.len() + q);
            }
        }
        i += 1;
    }
    assert(all.take(n as int) =~= all);
    out
}

} // verus!
