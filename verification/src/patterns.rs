//! Text clean-ups driven by regular expressions (through the `regex`
//! crate): code spacing for embedding, SQL Server boilerplate, job-id
//! prefixes of uploaded file names.
use vstd::prelude::*;
use crate::text::{
    chars_of, string_of, string_of_range, str_eq, trim_spec, trim_str, trim_chars, occurs_at,
    matches_at, extend_all, extend_str,
};
use crate::seqtext::{join, join_strings, views, push_string, split_newlines, split_newline_chars, vviews};
use crate::normalize::{expand_tabs, expand_tabs_spec, dedent, dedent_spec, trim_line_ends, trimmed_lines_joined, collapse_blank_lines};
use crate::chunk_helpers::collapse_newlines;

verus! {

// ---------------------------------------------------------------------------
// Regular expressions
// ---------------------------------------------------------------------------

/// What `Regex::new(pattern)` followed by `replace_all(text, rep)` gives;
/// `None` when the pattern does not compile.
pub uninterp spec fn regex_replace_all_spec(pattern: Seq<char>, text: Seq<char>, rep: Seq<char>) -> Option<Seq<char>>;

/// `Regex::replace_all` (with the pattern compiled by `Regex::new`): every
/// non-overlapping match replaced by `rep`, where `$1` stands for the first
/// group. The contract names the result; it is a function of the pattern,
/// the text and the replacement.
#[verifier::external_body]
pub(crate) fn regex_replace_all(pattern: &str, text: &str, rep: &str) -> (r: Option<String>)
    ensures
        r matches Some(s) ==> regex_replace_all_spec(pattern@, text@, rep@) == Some(s@),
        r is None ==> regex_replace_all_spec(pattern@, text@, rep@) is None,
{
    match regex::Regex::new(pattern) {
        Ok(re) => Some(re.replace_all(text, rep).into_owned()),
        Err(_) => None,
    }
}

/// What `Regex::new(pattern)` followed by `replace(text, rep)` gives;
/// `None` when the pattern does not compile.
pub uninterp spec fn regex_replace_first_spec(pattern: Seq<char>, text: Seq<char>, rep: Seq<char>) -> Option<Seq<char>>;

/// `Regex::replace` (with the pattern compiled by `Regex::new`): the first
/// match replaced by `rep`. The contract names the result; it is a function
/// of the pattern, the text and the replacement.
#[verifier::external_body]
pub(crate) fn regex_replace_first(pattern: &str, text: &str, rep: &str) -> (r: Option<String>)
    ensures
        r matches Some(s) ==> regex_replace_first_spec(pattern@, text@, rep@) == Some(s@),
        r is None ==> regex_replace_first_spec(pattern@, text@, rep@) is None,
{
    match regex::Regex::new(pattern) {
        Ok(re) => Some(re.replace(text, rep).into_owned()),
        Err(_) => None,
    }
}

/// The text of capture group `group` in the first match of `pattern` in
/// `text`; `None` when the pattern does not compile, does not match, or the
/// group does not take part in the match.
pub uninterp spec fn regex_capture_spec(pattern: Seq<char>, text: Seq<char>, group: nat) -> Option<Seq<char>>;

/// `Regex::captures` and `Captures::get` (with the pattern compiled by
/// `Regex::new`). The contract names the result; it is a function of the
/// pattern, the text and the group index.
#[verifier::external_body]
pub(crate) fn regex_capture(pattern: &str, text: &str, group: usize) -> (r: Option<String>)
    ensures
        r matches Some(s) ==> regex_capture_spec(pattern@, text@, group as nat) == Some(s@),
        r is None ==> regex_capture_spec(pattern@, text@, group as nat) is None,
{
    match regex::Regex::new(pattern) {
        Ok(re) => match re.captures(text) {
            Some(c) => match c.get(group) {
                Some(m) => Some(m.as_str().to_string()),
                None => None,
            },
            None => None,
        },
        Err(_) => None,
    }
}

/// The byte offsets at which capture group `group` starts, over all
/// successive non-overlapping matches of `pattern` in `text` (matches where
/// the group takes no part are passed over); `None` when the pattern does
/// not compile.
pub uninterp spec fn regex_group_starts_spec(pattern: Seq<char>, text: Seq<char>, group: nat) -> Option<Seq<usize>>;

/// `Regex::captures_iter` with `Captures::get(group)` and `Match::start`
/// (the pattern compiled by `Regex::new`). The contract names the result,
/// a function of the pattern, the text and the group, and states what the
/// crate documents of match offsets on a `&str`: they lie within the text
/// on UTF-8 character boundaries.
#[verifier::external_body]
pub(crate) fn regex_group_starts(pattern: &str, text: &str, group: usize) -> (r: Option<Vec<usize>>)
    ensures
        r matches Some(v) ==> regex_group_starts_spec(pattern@, text@, group as nat) == Some(v@),
        r is None ==> regex_group_starts_spec(pattern@, text@, group as nat) is None,
        r matches Some(v) ==> forall|i: int| 0 <= i < v@.len() ==> vstd::utf8::is_char_boundary(vstd::utf8::encode_utf8(text@), #[trigger] v@[i] as int),
        r matches Some(v) ==> forall|i: int| 0 <= i < v@.len() ==> #[trigger] v@[i] <= vstd::utf8::encode_utf8(text@).len(),
{
    match regex::Regex::new(pattern) {
        Ok(re) => {
            let mut out: Vec<usize> = Vec::new();
            for c in re.captures_iter(text) {
                if let Some(m) = c.get(group) {
                    out.push(m.start());
                }
            }
            Some(out)
        },
        Err(_) => None,
    }
}

/// The byte range of the first match of `pattern` in `text` that starts at
/// or after byte `start`; `None` when there is none or the pattern does not
/// compile.
pub uninterp spec fn regex_find_at_spec(pattern: Seq<char>, text: Seq<char>, start: nat) -> Option<(usize, usize)>;

/// `Regex::find_at` (the pattern compiled by `Regex::new`). The contract
/// names the result, a function of the pattern, the text and the start, and
/// states what the crate documents: the match lies at or after `start`,
/// within the text, between UTF-8 character boundaries.
#[verifier::external_body]
pub(crate) fn regex_find_at(pattern: &str, text: &str, start: usize) -> (r: Option<(usize, usize)>)
    requires
        start <= vstd::utf8::encode_utf8(text@).len(),
    ensures
        r == regex_find_at_spec(pattern@, text@, start as nat),
        r matches Some(m) ==> start <= m.0 <= m.1 <= vstd::utf8::encode_utf8(text@).len(),
        r matches Some(m) ==> vstd::utf8::is_char_boundary(vstd::utf8::encode_utf8(text@), m.0 as int)
            && vstd::utf8::is_char_boundary(vstd::utf8::encode_utf8(text@), m.1 as int),
{
    match regex::Regex::new(pattern) {
        Ok(re) => match re.find_at(text, start) {
            Some(m) => Some((m.start(), m.end())),
            None => None,
        },
        Err(_) => None,
    }
}

// ---------------------------------------------------------------------------
// Literal replacement
// ---------------------------------------------------------------------------

/// `str::replace` with a non-empty literal pattern: occurrences replaced
/// left to right, without overlap.
pub open spec fn replaced_from(s: Seq<char>, from: Seq<char>, to: Seq<char>, i: int) -> Seq<char>
    decreases s.len() - i,
{
    if i < 0 || i >= s.len() || from.len() == 0 {
        if 0 <= i <= s.len() {
            s.skip(i)
        } else {
            Seq::empty()
        }
    } else if occurs_at(s, from, i) {
        to + replaced_from(s, from, to, i + from.len())
    } else {
        seq![s[i]] + replaced_from(s, from, to, i + 1)
    }
}

pub open spec fn replaced(s: Seq<char>, from: Seq<char>, to: Seq<char>) -> Seq<char> {
    replaced_from(s, from, to, 0)
}

/// Replaces every occurrence of a non-empty literal, left to right.
pub fn replace_literal(s: &str, from: &str, to: &str) -> (r: String)
    requires
        from@.len() > 0,
    ensures
        r@ == replaced(s@, from@, to@),
{
    let v = chars_of(s);
    let fv = chars_of(from);
    let tv = chars_of(to);
    let mut out: Vec<char> = Vec::new();
    let mut i: usize = 0;
    while i < v.len()
        invariant
            i <= v.len(),
            fv@ == from@,
            tv@ == to@,
            fv@.len() > 0,
            out@ + replaced_from(v@, fv@, tv@, i as int) == replaced(v@, fv@, tv@),
        decreases v.len() - i,
    {
        let ghost before = out@;
        if fv.len() <= v.len() - i && matches_at(&v, &fv, i) {
            extend_all(&mut out, &tv);
            assert(out@ + replaced_from(v@, fv@, tv@, i + fv@.len()) =~= before + replaced_from(v@, fv@, tv@, i as int));
            i = i + fv.len();
        } else {
            out.push(v[i]);
            assert(out@ + replaced_from(v@, fv@, tv@, i + 1) =~= before + replaced_from(v@, fv@, tv@, i as int));
            i += 1;
        }
    }
    assert(replaced_from(v@, fv@, tv@, i as int) =~= Seq::<char>::empty());
    assert(out@ =~= replaced(v@, fv@, tv@));
    string_of(&out)
}

// ---------------------------------------------------------------------------
// Code spacing
// ---------------------------------------------------------------------------

/// Whitespace around an empty brace pair.
pub open spec fn empty_braces_pattern() -> Seq<char> {
    "\\s*\\{\\s*\\}"@
}

/// The code text before the empty-brace rewrite: tabs expanded to four
/// columns, dedented, trailing whitespace removed per line, blank runs
/// collapsed, and `{ get; set; }` tightened.
pub open spec fn spaced_code(code: Seq<char>) -> Seq<char> {
    replaced(
        collapse_newlines(trimmed_lines_joined(dedent_spec(expand_tabs_spec(code, 4)))),
        " { get; set; }"@,
        " {get;set;}"@,
    )
}

/// What `clean_code` returns: the spaced code with whitespace-wrapped empty
/// braces rewritten to `{}`, trimmed.
pub open spec fn cleaned_code(code: Seq<char>) -> Seq<char> {
    if code.len() == 0 {
        Seq::empty()
    } else {
        match regex_replace_all_spec(empty_braces_pattern(), spaced_code(code), "{}"@) {
            Some(t) => trim_spec(t),
            None => trim_spec(spaced_code(code)),
        }
    }
}

/// Cleans code for embedding: tabs expanded, dedented, trailing whitespace
/// and blank runs removed, `{ get; set; }` and empty braces tightened,
/// trimmed.
pub fn clean_code(code: &str) -> (r: String)
    requires
        (code@.len() + 1) * 4 <= usize::MAX,
    ensures
        r@ == cleaned_code(code@),
{
    if code.is_empty() {
        return String::new();
    }
    let expanded = expand_tabs(code, 4);
    let dedented = dedent(expanded.as_str());
    let lines = trim_line_ends(dedented.as_str());
    let collapsed = collapse_blank_lines(lines.as_str());
    proof {
        reveal_strlit(" { get; set; }");
    }
    let tightened = replace_literal(collapsed.as_str(), " { get; set; }", " {get;set;}");
    match regex_replace_all("\\s*\\{\\s*\\}", tightened.as_str(), "{}") {
        Some(t) => trim_str(t.as_str()),
        None => trim_str(tightened.as_str()),
    }
}

// ---------------------------------------------------------------------------
// Job-id prefixes
// ---------------------------------------------------------------------------

/// A job id (a lower-case UUID) and an underscore at the start of a name.
pub open spec fn job_prefix_pattern() -> Seq<char> {
    "^[0-9a-f]{8}-[0-9a-f]{4}-[0-9a-f]{4}-[0-9a-f]{4}-[0-9a-f]{12}_"@
}

/// Removes the `<job uuid>_` prefix from an uploaded file's temporary name;
/// `None` only when the pattern cannot be compiled.
pub fn strip_job_prefix(name: &str) -> (r: Option<String>)
    ensures
        match r {
            Some(s) => regex_replace_first_spec(job_prefix_pattern(), name@, ""@) == Some(s@),
            None => regex_replace_first_spec(job_prefix_pattern(), name@, ""@) is None,
        },
{
    regex_replace_first("^[0-9a-f]{8}-[0-9a-f]{4}-[0-9a-f]{4}-[0-9a-f]{4}-[0-9a-f]{12}_", name, "")
}

// ---------------------------------------------------------------------------
// SQL Server boilerplate
// ---------------------------------------------------------------------------

/// `USE <database>` with optional brackets and semicolon.
pub open spec fn use_pattern() -> Seq<char> {
    "(?i)^\\u{feff}?\\s*USE\\s+\\[?([^\\]\\s;]+)\\]?\\s*;?\\s*$"@
}

/// A bracketed identifier.
pub open spec fn bracket_pattern() -> Seq<char> {
    "\\[([^\\]]*)\\]"@
}

/// `s` without its leading byte-order marks.
pub open spec fn without_leading_bom(s: Seq<char>) -> Seq<char>
    decreases s.len(),
{
    if s.len() > 0 && s[0] == '\u{feff}' {
        without_leading_bom(s.skip(1))
    } else {
        s
    }
}

/// Lines that carry no SQL: batch separators and session settings.
pub open spec fn is_boilerplate_line(upper: Seq<char>) -> bool {
    upper == "GO"@ || upper == "/"@ || upper == "SET ANSI_NULLS ON"@ || upper == "SET ANSI_NULLS OFF"@
        || upper == "SET QUOTED_IDENTIFIER ON"@ || upper == "SET QUOTED_IDENTIFIER OFF"@
}

/// The kept lines and the database named by the last `USE` line.
pub open spec fn boilerplate_state(lines: Seq<Seq<char>>) -> (Seq<Seq<char>>, Option<Seq<char>>)
    decreases lines.len(),
{
    if lines.len() == 0 {
        (Seq::empty(), None)
    } else {
        let prev = boilerplate_state(lines.drop_last());
        let line = lines.last();
        let upper = crate::sql::upper_spec(without_leading_bom(trim_spec(line)));
        if is_boilerplate_line(upper) {
            prev
        } else {
            match regex_capture_spec(use_pattern(), trim_spec(line), 1) {
                Some(db) => (prev.0, Some(db)),
                None => (prev.0.push(line), prev.1),
            }
        }
    }
}

/// What `strip_sql_boilerplate` returns.
pub open spec fn sql_without_boilerplate(text: Seq<char>) -> (Seq<char>, Option<Seq<char>>) {
    let st = boilerplate_state(split_newlines(text));
    let joined = join(st.0, "\n"@);
    (
        match regex_replace_all_spec(bracket_pattern(), joined, "$1"@) {
            Some(t) => t,
            None => joined,
        },
        st.1,
    )
}

/// Removes SQL Server boilerplate (`GO`, `/`, `SET ANSI_NULLS`, `SET
/// QUOTED_IDENTIFIER` lines, `USE <db>` lines) and square brackets around
/// identifiers; returns the cleaned text and the database named by the last
/// `USE` line.
pub fn strip_sql_boilerplate(text: &str) -> (r: (String, Option<String>))
    ensures
        r.0@ == sql_without_boilerplate(text@).0,
        crate::chunk_types::opt_view(r.1) == sql_without_boilerplate(text@).1,
{
    let v = chars_of(text);
    let lines = split_newline_chars(&v);
    let ghost ls = vviews(lines@);
    let mut cleaned: Vec<String> = Vec::new();
    let mut database: Option<String> = None;
    let mut i: usize = 0;
    while i < lines.len()
        invariant
            i <= lines.len(),
            ls == vviews(lines@),
            views(cleaned@) == boilerplate_state(ls.take(i as int)).0,
            crate::chunk_types::opt_view(database) == boilerplate_state(ls.take(i as int)).1,
        decreases lines.len() - i,
    {
        assert(ls.take(i + 1).drop_last() =~= ls.take(i as int));
        assert(ls.take(i + 1).last() == lines@[i as int]@);
        let line = string_of(&lines[i]);
        let t = trim_chars(&lines[i]);
        let mut k: usize = 0;
        assert(t@.skip(0) =~= t@);
        while k < t.len() && t[k] == '\u{feff}'
            invariant
                k <= t.len(),
                without_leading_bom(t@.skip(k as int)) == without_leading_bom(t@),
            decreases t.len() - k,
        {
            assert(t@.skip(k as int).skip(1) =~= t@.skip(k + 1));
            k += 1;
        }
        let nb = string_of_range(&t, k, t.len());
        assert(nb@ =~= t@.skip(k as int));
        let upper = crate::sql::to_uppercase(nb.as_str());
        let u = upper.as_str();
        let skip = str_eq(u, "GO") || str_eq(u, "/") || str_eq(u, "SET ANSI_NULLS ON") || str_eq(
            u,
            "SET ANSI_NULLS OFF",
        ) || str_eq(u, "SET QUOTED_IDENTIFIER ON") || str_eq(u, "SET QUOTED_IDENTIFIER OFF");
        if !skip {
            let ts = string_of(&t);
            match regex_capture("(?i)^\\u{feff}?\\s*USE\\s+\\[?([^\\]\\s;]+)\\]?\\s*;?\\s*$", ts.as_str(), 1) {
                Some(db) => {
                    database = Some(db);
                },
                None => {
                    push_string(&mut cleaned, line);
                },
            }
        }
        i += 1;
    }
    assert(ls.take(lines.len() as int) =~= ls);
    assert(ls == split_newlines(text@));
    let joined = join_strings(&cleaned, "\n");
    let out = match regex_replace_all("\\[([^\\]]*)\\]", joined.as_str(), "$1") {
        Some(t) => t,
        None => joined,
    };
    (out, database)
}

} // verus!
