//! Normalization of dependency and type texts taken from source files:
//! `#include` targets, `using` directives, Java imports, Rust `use` items,
//! parameter and type annotations.
use vstd::prelude::*;
use crate::text::{
    chars_of, string_of, string_of_range, trim_chars, trim_spec, trim_str, starts_with_spec,
    ends_with_spec, starts_with_chars, ends_with_chars, lemma_trim_start_index_bounds,
    lemma_trim_end_index_bounds,
};

verus! {

/// `s` without the prefix `p` when it starts with it.
pub open spec fn drop_prefix(s: Seq<char>, p: Seq<char>) -> Seq<char> {
    if starts_with_spec(s, p) {
        s.skip(p.len() as int)
    } else {
        s
    }
}

/// `s` without the suffix `p` when it ends with it.
pub open spec fn drop_suffix(s: Seq<char>, p: Seq<char>) -> Seq<char> {
    if ends_with_spec(s, p) {
        s.take(s.len() - p.len())
    } else {
        s
    }
}

/// `s.strip_prefix(p).map(str::trim)`, or `s` unchanged.
pub open spec fn strip_prefix_trim(s: Seq<char>, p: Seq<char>) -> Seq<char> {
    if starts_with_spec(s, p) {
        trim_spec(s.skip(p.len() as int))
    } else {
        s
    }
}

/// `s.strip_suffix(p).map(str::trim)`, or `s` unchanged.
pub open spec fn strip_suffix_trim(s: Seq<char>, p: Seq<char>) -> Seq<char> {
    if ends_with_spec(s, p) {
        trim_spec(s.take(s.len() - p.len()))
    } else {
        s
    }
}

fn strip_prefix_trim_exec(v: &Vec<char>, p: &str) -> (r: Vec<char>)
    ensures
        r@ == strip_prefix_trim(v@, p@),
{
    let pv = chars_of(p);
    if starts_with_chars(v, &pv) {
        let rest = string_of_range(v, pv.len(), v.len());
        assert(rest@ =~= v@.skip(p@.len() as int));
        trim_chars(&chars_of(rest.as_str()))
    } else {
        chars_of(string_of(v).as_str())
    }
}

fn strip_suffix_trim_exec(v: &Vec<char>, p: &str) -> (r: Vec<char>)
    ensures
        r@ == strip_suffix_trim(v@, p@),
{
    let pv = chars_of(p);
    if ends_with_chars(v, &pv) {
        let rest = string_of_range(v, 0, v.len() - pv.len());
        assert(rest@ =~= v@.take(v@.len() - p@.len()));
        trim_chars(&chars_of(rest.as_str()))
    } else {
        chars_of(string_of(v).as_str())
    }
}

/// An `#include` target without its `<...>` or quotes, trimmed.
pub open spec fn include_target(value: Seq<char>) -> Seq<char> {
    let s = trim_spec(value);
    if s.len() >= 2 && ((s[0] == '<' && s.last() == '>') || ((s[0] == '"' || s[0] == '\'')
        && s.last() == s[0])) {
        trim_spec(s.subrange(1, s.len() - 1))
    } else {
        s
    }
}

/// Normalizes a C/C++ `#include` target: `<stdio.h>` and `"a.h"` give
/// `stdio.h` and `a.h`.
pub fn normalize_include_target(value: &str) -> (r: String)
    ensures
        r@ == include_target(value@),
{
    let s = trim_chars(&chars_of(value));
    let n = s.len();
    if n >= 2 {
        let first = s[0];
        let last = s[n - 1];
        if (first == '<' && last == '>') || ((first == '"' || first == '\'') && last == first) {
            let inner = string_of_range(&s, 1, n - 1);
            return trim_str(inner.as_str());
        }
    }
    string_of(&s)
}

/// A parameter's type: its text without the trailing parameter name,
/// trimmed; the text itself when the name is absent or not at its end.
pub open spec fn param_type_text(text: Seq<char>, name: Option<Seq<char>>) -> Seq<char> {
    if text.len() == 0 {
        Seq::empty()
    } else {
        match name {
            Some(n) => if ends_with_spec(text, n) {
                trim_spec(text.take(text.len() - n.len()))
            } else {
                text
            },
            None => text,
        }
    }
}

/// Extracts a C parameter's type from the parameter text by removing the
/// parameter name at its end.
pub fn extract_param_type_from_text(param_text: &str, name: Option<&str>) -> (r: String)
    ensures
        r@ == param_type_text(
            param_text@,
            match name {
                Some(n) => Some(n@),
                None => None,
            },
        ),
{
    let v = chars_of(param_text);
    if v.len() == 0 {
        return String::new();
    }
    match name {
        Some(n) => {
            let stripped = strip_suffix_trim_exec(&v, n);
            string_of(&stripped)
        },
        None => string_of(&v),
    }
}

/// The namespace a C# `using` directive brings in: `using`, `static`, the
/// `;`, an alias's `name =` and `global::` removed; `None` for text that is
/// not a `using` directive or names nothing.
pub open spec fn csharp_using(text: Seq<char>) -> Option<Seq<char>> {
    let t0 = trim_spec(text);
    if !starts_with_spec(t0, "using"@) {
        None
    } else {
        let t1 = trim_spec(t0.skip(5));
        let t2 = strip_prefix_trim(t1, "static"@);
        let t3 = strip_suffix_trim(t2, ";"@);
        let eq = crate::sql::first_index(t3, '=', 0);
        let t4 = if eq < t3.len() {
            trim_spec(t3.skip(eq + 1))
        } else {
            t3
        };
        let t5 = drop_prefix(t4, "global::"@);
        if t5.len() == 0 {
            None
        } else {
            Some(t5)
        }
    }
}

/// Normalizes a C# `using` directive to the namespace it brings in.
pub fn normalize_csharp_using(using_text: &str) -> (r: Option<String>)
    ensures
        match r {
            Some(s) => csharp_using(using_text@) == Some(s@),
            None => csharp_using(using_text@) is None,
        },
{
    let t0 = trim_chars(&chars_of(using_text));
    proof {
        reveal_strlit("using");
        reveal_strlit("global::");
    }
    if !starts_with_chars(&t0, &chars_of("using")) {
        return None;
    }
    let rest = string_of_range(&t0, 5, t0.len());
    assert(rest@ =~= t0@.skip(5));
    let t1 = trim_chars(&chars_of(rest.as_str()));
    let t2 = strip_prefix_trim_exec(&t1, "static");
    let t3 = strip_suffix_trim_exec(&t2, ";");
    let mut eq: usize = 0;
    while eq < t3.len() && t3[eq] != '='
        invariant
            eq <= t3.len(),
            crate::sql::first_index(t3@, '=', eq as int) == crate::sql::first_index(t3@, '=', 0),
        decreases t3.len() - eq,
    {
        eq += 1;
    }
    let t4 = if eq < t3.len() {
        let after = string_of_range(&t3, eq + 1, t3.len());
        assert(after@ =~= t3@.skip(eq + 1));
        trim_chars(&chars_of(after.as_str()))
    } else {
        t3
    };
    let g = chars_of("global::");
    let t5 = if starts_with_chars(&t4, &g) {
        let s = string_of_range(&t4, 8, t4.len());
        assert(s@ =~= t4@.skip(8));
        chars_of(s.as_str())
    } else {
        t4
    };
    if t5.len() == 0 {
        None
    } else {
        Some(string_of(&t5))
    }
}

/// A Java import without `import`, `static` and the `;`.
pub open spec fn java_import(text: Seq<char>) -> Seq<char> {
    strip_suffix_trim(strip_prefix_trim(strip_prefix_trim(trim_spec(text), "import "@), "static "@), ";"@)
}

/// Normalizes a Java import to the imported name.
pub fn normalize_java_import(text: &str) -> (r: String)
    ensures
        r@ == java_import(text@),
{
    let t = trim_chars(&chars_of(text));
    let t = strip_prefix_trim_exec(&t, "import ");
    let t = strip_prefix_trim_exec(&t, "static ");
    let t = strip_suffix_trim_exec(&t, ";");
    string_of(&t)
}

/// A Rust `use`/`extern crate` item without `pub`, `use`, `extern crate`
/// and the `;`.
pub open spec fn rust_dependency(text: Seq<char>) -> Seq<char> {
    strip_suffix_trim(
        strip_prefix_trim(strip_prefix_trim(strip_prefix_trim(trim_spec(text), "pub "@), "use "@), "extern crate "@),
        ";"@,
    )
}

/// Normalizes a Rust `use` or `extern crate` item to the path it names.
pub fn normalize_rust_dependency(text: &str) -> (r: String)
    ensures
        r@ == rust_dependency(text@),
{
    let t = trim_chars(&chars_of(text));
    let t = strip_prefix_trim_exec(&t, "pub ");
    let t = strip_prefix_trim_exec(&t, "use ");
    let t = strip_prefix_trim_exec(&t, "extern crate ");
    let t = strip_suffix_trim_exec(&t, ";");
    string_of(&t)
}

/// A type annotation without its leading `:`, trimmed.
pub open spec fn type_text(text: Seq<char>) -> Seq<char> {
    strip_prefix_trim(trim_spec(text), ":"@)
}

/// Normalizes a Rust type annotation (`: u32` gives `u32`).
pub fn normalize_type_text(text: &str) -> (r: String)
    ensures
        r@ == type_text(text@),
{
    let t = trim_chars(&chars_of(text));
    let t = strip_prefix_trim_exec(&t, ":");
    string_of(&t)
}

} // verus!
