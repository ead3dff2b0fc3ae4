//! SQL chunk bookkeeping that does not need the parser: statement labels
//! and types, qualified names, chunk ids, the file remainder chunk, and the
//! filtering of chunks whose statement type is not recognised.
use vstd::prelude::*;
use crate::text::{
    chars_of, string_of, string_of_range, concat_str, str_eq, trim_str, trim_spec,
    starts_with_spec, starts_with_chars, extend_str,
};
use crate::code_chunk::{CodeChunk, now_iso};
use crate::chunk_types::{CodeChunkKind, SqlFields, opt_view, copy_strings};
use crate::languages::{file_name_of, path_file_name};
use crate::sections::{collapse_ws, collapse_whitespace};
use crate::scrape::words;
use crate::seqtext::{views, join};
use crate::spans::{build_remainder_code, remainder_bytes, Span};
use crate::normalize::{normalize_code, normalize_code_spec};
use crate::text::utf8_lossy_spec;

verus! {

// ---------------------------------------------------------------------------
// Case mapping and identifiers
// ---------------------------------------------------------------------------

/// What `str::to_uppercase` returns for the given text.
pub uninterp spec fn upper_spec(s: Seq<char>) -> Seq<char>;

/// `str::to_uppercase`: the Unicode upper case of the text. The contract
/// names the result; it is a function of the text alone.
#[verifier::external_body]
pub(crate) fn to_uppercase(s: &str) -> (r: String)
    ensures
        r@ == upper_spec(s@),
{
    s.to_uppercase()
}

/// What `str::to_lowercase` returns for the given text.
pub uninterp spec fn lower_spec(s: Seq<char>) -> Seq<char>;

/// `str::to_lowercase`: the Unicode lower case of the text. The contract
/// names the result; it is a function of the text alone.
#[verifier::external_body]
pub(crate) fn to_lowercase(s: &str) -> (r: String)
    ensures
        r@ == lower_spec(s@),
{
    s.to_lowercase()
}

/// A lower-case hexadecimal digit.
pub open spec fn is_lower_hex(c: char) -> bool {
    ('0' <= c && c <= '9') || ('a' <= c && c <= 'f')
}

/// The text of a version-4 UUID: 32 lower-case hex digits (in the simple
/// form) or the same split 8-4-4-4-12 by hyphens, with version digit `4`.
pub open spec fn is_uuid_v4_text(s: Seq<char>, hyphenated: bool) -> bool {
    let hyphen = |i: int| hyphenated && (i == 8 || i == 13 || i == 18 || i == 23);
    &&& s.len() == if hyphenated { 36int } else { 32int }
    &&& forall|i: int| 0 <= i < s.len() ==> if hyphen(i) { s[i] == '-' } else { is_lower_hex(#[trigger] s[i]) }
    &&& s[if hyphenated { 14int } else { 12int }] == '4'
}

/// `Uuid::new_v4().to_string()`: a random UUID in its hyphenated,
/// lower-case form (uuid's `Display`). Its digits are random; only their
/// format is stated.
#[verifier::external_body]
pub(crate) fn new_uuid_string() -> (r: String)
    ensures
        r@.len() == 36,
        is_uuid_v4_text(r@, true),
{
    uuid::Uuid::new_v4().to_string()
}

/// `Uuid::new_v4().simple().to_string()`: a random UUID as 32 lower-case
/// hex digits. Its digits are random; only their format is stated.
#[verifier::external_body]
fn new_uuid_simple() -> (r: String)
    ensures
        r@.len() == 32,
        is_uuid_v4_text(r@, false),
{
    uuid::Uuid::new_v4().simple().to_string()
}

/// The file name of a path, or the path itself when it has none.
pub open spec fn base_name(p: Seq<char>) -> Seq<char> {
    match file_name_of(p) {
        Some(n) => n,
        None => p,
    }
}

pub(crate) fn base_name_of(path: &str) -> (r: String)
    ensures
        r@ == base_name(path@),
{
    match path_file_name(path) {
        Some(n) => n,
        None => path.to_owned(),
    }
}

/// A chunk id `<file name>-<identifier>-<8 random hex digits>`.
pub fn generate_chunk_id(file_path: &str, identifier: &str) -> (r: String)
    ensures
        exists|suffix: Seq<char>|
            suffix.len() == 8 && r@ == base_name(file_path@) + "-"@ + identifier@ + "-"@ + suffix,
{
    let base = base_name_of(file_path);
    let uuid = new_uuid_simple();
    let uv = chars_of(uuid.as_str());
    let suffix = string_of_range(&uv, 0, 8);
    let mut v = chars_of(base.as_str());
    extend_str(&mut v, "-");
    extend_str(&mut v, identifier);
    extend_str(&mut v, "-");
    extend_str(&mut v, suffix.as_str());
    let r = string_of(&v);
    assert(r@ == base_name(file_path@) + "-"@ + identifier@ + "-"@ + suffix@);
    r
}

// ---------------------------------------------------------------------------
// Names
// ---------------------------------------------------------------------------

/// A name trimmed and, when wrapped in square brackets, unwrapped.
pub open spec fn unbracketed(s: Seq<char>) -> Seq<char> {
    let t = trim_spec(s);
    if t.len() >= 2 && t[0] == '[' && t.last() == ']' {
        t.subrange(1, t.len() - 1)
    } else {
        t
    }
}

/// Trims a name and removes one pair of surrounding square brackets.
pub fn strip_brackets(name: &str) -> (r: String)
    ensures
        r@ == unbracketed(name@),
{
    let t = chars_of(trim_str(name).as_str());
    let n = t.len();
    if n >= 2 && t[0] == '[' && t[n - 1] == ']' {
        string_of_range(&t, 1, n - 1)
    } else {
        string_of(&t)
    }
}

/// Underscores turned into spaces.
pub open spec fn spaced(s: Seq<char>) -> Seq<char> {
    Seq::new(s.len(), |i: int| if s[i] == '_' { ' ' } else { s[i] })
}

/// A statement label from a parser node type: `create_table` gives
/// `CREATE TABLE`.
pub fn get_statement_label(node_type: &str) -> (r: String)
    ensures
        r@ == upper_spec(spaced(node_type@)),
{
    let v = chars_of(node_type);
    let mut out: Vec<char> = Vec::new();
    let mut i: usize = 0;
    while i < v.len()
        invariant
            i <= v.len(),
            out@ == spaced(v@).take(i as int),
        decreases v.len() - i,
    {
        out.push(if v[i] == '_' { ' ' } else { v[i] });
        i += 1;
        assert(out@ =~= spaced(v@).take(i as int));
    }
    assert(spaced(v@).take(v.len() as int) =~= spaced(v@));
    to_uppercase(string_of(&out).as_str())
}

/// Whether a byte position lies inside one of the half-open spans.
pub open spec fn in_some_span(pos: int, spans: Seq<Span>) -> bool {
    exists|i: int| 0 <= i < spans.len() && (#[trigger] spans[i]).0 <= pos < spans[i].1
}

/// Whether `pos` lies inside one of the half-open `spans`.
pub fn inside_spans(pos: usize, spans: &[Span]) -> (r: bool)
    ensures
        r == in_some_span(pos as int, spans@),
{
    let mut i: usize = 0;
    while i < spans.len()
        invariant
            i <= spans.len(),
            forall|k: int| 0 <= k < i ==> !((#[trigger] spans@[k]).0 <= pos < spans@[k].1),
        decreases spans.len() - i,
    {
        if spans[i].0 <= pos && pos < spans[i].1 {
            return true;
        }
        i += 1;
    }
    false
}

/// Index of the first `c` at or after `i`, or the length.
pub open spec fn first_index(s: Seq<char>, c: char, i: int) -> int
    decreases s.len() - i,
{
    if i < 0 || i >= s.len() {
        s.len() as int
    } else if s[i] == c {
        i
    } else {
        first_index(s, c, i + 1)
    }
}

/// Index of the last `c` before `n`, or `-1`.
pub open spec fn last_index(s: Seq<char>, c: char, n: int) -> int
    decreases n,
{
    if n <= 0 {
        -1
    } else if s[n - 1] == c {
        n - 1
    } else {
        last_index(s, c, n - 1)
    }
}

/// The text without square brackets.
pub open spec fn without_brackets(s: Seq<char>) -> Seq<char> {
    s.filter(|c: char| c != '[' && c != ']')
}

/// `(schema, name)` of a possibly qualified name: brackets dropped, the
/// part before the first `.` and the part after the last `.`; a name
/// without a dot has no schema; an empty name has neither.
pub open spec fn qualified_name(raw: Seq<char>) -> (Option<Seq<char>>, Option<Seq<char>>) {
    let clean = without_brackets(raw);
    let first = first_index(clean, '.', 0);
    if first < clean.len() {
        let last = last_index(clean, '.', clean.len() as int);
        (Some(clean.take(first)), Some(clean.skip(last + 1)))
    } else if clean.len() == 0 {
        (None, None)
    } else {
        (None, Some(clean))
    }
}

pub(crate) fn first_index_exec(v: &Vec<char>, c: char) -> (r: usize)
    ensures
        r == first_index(v@, c, 0),
{
    let mut i: usize = 0;
    while i < v.len() && v[i] != c
        invariant
            i <= v.len(),
            first_index(v@, c, i as int) == first_index(v@, c, 0),
        decreases v.len() - i,
    {
        i += 1;
    }
    i
}

proof fn lemma_last_index_bounds(s: Seq<char>, c: char, n: int)
    requires
        0 <= n <= s.len(),
    ensures
        -1 <= last_index(s, c, n) < n,
    decreases n,
{
    if n > 0 && s[n - 1] != c {
        lemma_last_index_bounds(s, c, n - 1);
    }
}

pub proof fn lemma_first_index_bounds(s: Seq<char>, c: char, i: int)
    requires
        0 <= i <= s.len(),
    ensures
        i <= first_index(s, c, i) <= s.len(),
        first_index(s, c, i) < s.len() ==> s[first_index(s, c, i)] == c,
    decreases s.len() - i,
{
    if i < s.len() && s[i] != c {
        lemma_first_index_bounds(s, c, i + 1);
    }
}

/// Splits `schema.name` (brackets allowed) into its schema and name.
pub fn parse_qualified_name(raw: &str) -> (r: (Option<String>, Option<String>))
    ensures
        opt_view(r.0) == qualified_name(raw@).0,
        opt_view(r.1) == qualified_name(raw@).1,
{
    let v = chars_of(raw);
    let mut clean: Vec<char> = Vec::new();
    let mut i: usize = 0;
    while i < v.len()
        invariant
            i <= v.len(),
            clean@ == without_brackets(v@.take(i as int)),
        decreases v.len() - i,
    {
        let c = v[i];
        proof {
            let t = v@.take(i + 1);
            reveal(Seq::filter);
            assert(t.drop_last() =~= v@.take(i as int));
            assert(t.last() == c);
            assert(without_brackets(t) == if c != '[' && c != ']' {
                without_brackets(t.drop_last()).push(c)
            } else {
                without_brackets(t.drop_last())
            });
        }
        if c != '[' && c != ']' {
            clean.push(c);
        }
        i += 1;
    }
    assert(v@.take(v.len() as int) =~= v@);
    let first = first_index_exec(&clean, '.');
    proof {
        lemma_first_index_bounds(clean@, '.', 0);
    }
    if first < clean.len() {
        let mut last = clean.len();
        while last > 0 && clean[last - 1] != '.'
            invariant
                last <= clean.len(),
                last_index(clean@, '.', last as int) == last_index(clean@, '.', clean.len() as int),
            decreases last,
        {
            last -= 1;
        }
        proof {
            lemma_last_index_bounds(clean@, '.', clean.len() as int);
        }
        let schema = string_of_range(&clean, 0, first);
        let name = string_of_range(&clean, last, clean.len());
        assert(clean@.subrange(0, first as int) =~= clean@.take(first as int));
        assert(clean@.subrange(last as int, clean.len() as int) =~= clean@.skip(
            last_index(clean@, '.', clean.len() as int) + 1,
        ));
        (Some(schema), Some(name))
    } else if clean.len() == 0 {
        (None, None)
    } else {
        (None, Some(string_of(&clean)))
    }
}

// ---------------------------------------------------------------------------
// Statement types
// ---------------------------------------------------------------------------

/// Statement prefixes tried in order, longest forms first.
pub open spec fn statement_prefixes() -> Seq<Seq<char>> {
    seq![
        "CREATE OR REPLACE PACKAGE BODY"@,
        "CREATE OR REPLACE PACKAGE"@,
        "CREATE OR REPLACE PUBLIC SYNONYM"@,
        "CREATE OR REPLACE SYNONYM"@,
        "CREATE OR REPLACE TYPE BODY"@,
        "CREATE OR REPLACE TYPE"@,
        "CREATE OR REPLACE PROCEDURE"@,
        "CREATE OR REPLACE FUNCTION"@,
        "CREATE OR REPLACE TRIGGER"@,
        "CREATE MATERIALIZED VIEW"@,
        "CREATE VIRTUAL TABLE"@,
        "CREATE PACKAGE BODY"@,
        "CREATE PACKAGE"@,
        "CREATE TYPE BODY"@,
        "CREATE TABLESPACE"@,
        "CREATE UNIQUE INDEX"@,
        "CREATE PROCEDURE"@,
        "CREATE FUNCTION"@,
        "CREATE TABLE"@,
        "CREATE VIEW"@,
        "CREATE INDEX"@,
        "CREATE TRIGGER"@,
        "CREATE SEQUENCE"@,
        "CREATE TYPE"@,
        "CREATE SCHEMA"@,
        "CREATE DATABASE"@,
        "CREATE EXTENSION"@,
        "CREATE ROLE"@,
        "CREATE POLICY"@,
        "CREATE SYNONYM"@,
        "ALTER TABLE"@,
        "DROP TABLE IF EXISTS"@,
        "DROP TABLE"@,
        "DROP VIEW"@,
        "DROP FUNCTION"@,
        "DROP PROCEDURE"@,
        "DROP INDEX"@,
        "DROP TYPE"@,
        "DROP SEQUENCE"@,
        "DROP EXTENSION"@,
        "DROP SCHEMA"@,
        "DROP TRIGGER"@,
    ]
}

/// The first prefix (from index `k` on) that `s` starts with.
pub open spec fn first_prefix(s: Seq<char>, ps: Seq<Seq<char>>, k: int) -> Option<Seq<char>>
    decreases ps.len() - k,
{
    if k < 0 || k >= ps.len() {
        None
    } else if starts_with_spec(s, ps[k]) {
        Some(ps[k])
    } else {
        first_prefix(s, ps, k + 1)
    }
}

/// Single-keyword statements recognised by their first word.
pub open spec fn is_dml_keyword(w: Seq<char>) -> bool {
    w == "INSERT"@ || w == "SELECT"@ || w == "UPDATE"@ || w == "DELETE"@ || w == "MERGE"@ || w
        == "GRANT"@ || w == "REVOKE"@
}

/// The statement type of a SQL text: its words joined by single spaces and
/// upper-cased; the first known prefix (with `IF EXISTS` dropped); else
/// the first word when it is a DML/DCL keyword; else the first two words;
/// else `UNKNOWN`.
pub open spec fn statement_type(code: Seq<char>) -> Seq<char> {
    let normalized = upper_spec(collapse_ws(code));
    let ws = words(normalized);
    match first_prefix(normalized, statement_prefixes(), 0) {
        Some(p) => if p == "DROP TABLE IF EXISTS"@ {
            "DROP TABLE"@
        } else {
            p
        },
        None => if ws.len() > 0 && is_dml_keyword(ws[0]) {
            ws[0]
        } else if ws.len() >= 2 {
            ws[0] + " "@ + ws[1]
        } else if ws.len() == 1 {
            ws[0]
        } else {
            "UNKNOWN"@
        },
    }
}

/// The statements typed by their first word alone.
pub open spec fn single_word_statements() -> Seq<Seq<char>> {
    seq!["INSERT"@, "SELECT"@, "UPDATE"@, "DELETE"@, "MERGE"@, "GRANT"@, "REVOKE"@]
}

/// The text a statement's type is read from: its words joined by single
/// spaces, upper-cased.
pub open spec fn statement_text(code: Seq<char>) -> Seq<char> {
    upper_spec(collapse_ws(code))
}

proof fn lemma_starts_with_trans(n: Seq<char>, p: Seq<char>, q: Seq<char>)
    requires
        starts_with_spec(n, p),
        starts_with_spec(p, q),
    ensures
        starts_with_spec(n, q),
{
    assert(n.take(q.len() as int) =~= p.take(q.len() as int));
}

/// Every statement prefix begins with `CREATE`, `ALTER` or `DROP`.
proof fn lemma_prefixes_lead_words()
    ensures
        forall|k: int| 0 <= k < statement_prefixes().len() ==> starts_with_spec(#[trigger] statement_prefixes()[k], "CREATE"@)
            || starts_with_spec(statement_prefixes()[k], "ALTER"@) || starts_with_spec(statement_prefixes()[k], "DROP"@),
{
    let ps = statement_prefixes();
    reveal_strlit("CREATE");
    reveal_strlit("ALTER");
    reveal_strlit("DROP");
    reveal_strlit("CREATE OR REPLACE PACKAGE BODY");
    assert(ps[0].take(6) =~= "CREATE"@);
    reveal_strlit("CREATE OR REPLACE PACKAGE");
    assert(ps[1].take(6) =~= "CREATE"@);
    reveal_strlit("CREATE OR REPLACE PUBLIC SYNONYM");
    assert(ps[2].take(6) =~= "CREATE"@);
    reveal_strlit("CREATE OR REPLACE SYNONYM");
    assert(ps[3].take(6) =~= "CREATE"@);
    reveal_strlit("CREATE OR REPLACE TYPE BODY");
    assert(ps[4].take(6) =~= "CREATE"@);
    reveal_strlit("CREATE OR REPLACE TYPE");
    assert(ps[5].take(6) =~= "CREATE"@);
    reveal_strlit("CREATE OR REPLACE PROCEDURE");
    assert(ps[6].take(6) =~= "CREATE"@);
    reveal_strlit("CREATE OR REPLACE FUNCTION");
    assert(ps[7].take(6) =~= "CREATE"@);
    reveal_strlit("CREATE OR REPLACE TRIGGER");
    assert(ps[8].take(6) =~= "CREATE"@);
    reveal_strlit("CREATE MATERIALIZED VIEW");
    assert(ps[9].take(6) =~= "CREATE"@);
    reveal_strlit("CREATE VIRTUAL TABLE");
    assert(ps[10].take(6) =~= "CREATE"@);
    reveal_strlit("CREATE PACKAGE BODY");
    assert(ps[11].take(6) =~= "CREATE"@);
    reveal_strlit("CREATE PACKAGE");
    assert(ps[12].take(6) =~= "CREATE"@);
    reveal_strlit("CREATE TYPE BODY");
    assert(ps[13].take(6) =~= "CREATE"@);
    reveal_strlit("CREATE TABLESPACE");
    assert(ps[14].take(6) =~= "CREATE"@);
    reveal_strlit("CREATE UNIQUE INDEX");
    assert(ps[15].take(6) =~= "CREATE"@);
    reveal_strlit("CREATE PROCEDURE");
    assert(ps[16].take(6) =~= "CREATE"@);
    reveal_strlit("CREATE FUNCTION");
    assert(ps[17].take(6) =~= "CREATE"@);
    reveal_strlit("CREATE TABLE");
    assert(ps[18].take(6) =~= "CREATE"@);
    reveal_strlit("CREATE VIEW");
    assert(ps[19].take(6) =~= "CREATE"@);
    reveal_strlit("CREATE INDEX");
    assert(ps[20].take(6) =~= "CREATE"@);
    reveal_strlit("CREATE TRIGGER");
    assert(ps[21].take(6) =~= "CREATE"@);
    reveal_strlit("CREATE SEQUENCE");
    assert(ps[22].take(6) =~= "CREATE"@);
    reveal_strlit("CREATE TYPE");
    assert(ps[23].take(6) =~= "CREATE"@);
    reveal_strlit("CREATE SCHEMA");
    assert(ps[24].take(6) =~= "CREATE"@);
    reveal_strlit("CREATE DATABASE");
    assert(ps[25].take(6) =~= "CREATE"@);
    reveal_strlit("CREATE EXTENSION");
    assert(ps[26].take(6) =~= "CREATE"@);
    reveal_strlit("CREATE ROLE");
    assert(ps[27].take(6) =~= "CREATE"@);
    reveal_strlit("CREATE POLICY");
    assert(ps[28].take(6) =~= "CREATE"@);
    reveal_strlit("CREATE SYNONYM");
    assert(ps[29].take(6) =~= "CREATE"@);
    reveal_strlit("ALTER TABLE");
    assert(ps[30].take(5) =~= "ALTER"@);
    reveal_strlit("DROP TABLE IF EXISTS");
    assert(ps[31].take(4) =~= "DROP"@);
    reveal_strlit("DROP TABLE");
    assert(ps[32].take(4) =~= "DROP"@);
    reveal_strlit("DROP VIEW");
    assert(ps[33].take(4) =~= "DROP"@);
    reveal_strlit("DROP FUNCTION");
    assert(ps[34].take(4) =~= "DROP"@);
    reveal_strlit("DROP PROCEDURE");
    assert(ps[35].take(4) =~= "DROP"@);
    reveal_strlit("DROP INDEX");
    assert(ps[36].take(4) =~= "DROP"@);
    reveal_strlit("DROP TYPE");
    assert(ps[37].take(4) =~= "DROP"@);
    reveal_strlit("DROP SEQUENCE");
    assert(ps[38].take(4) =~= "DROP"@);
    reveal_strlit("DROP EXTENSION");
    assert(ps[39].take(4) =~= "DROP"@);
    reveal_strlit("DROP SCHEMA");
    assert(ps[40].take(4) =~= "DROP"@);
    reveal_strlit("DROP TRIGGER");
    assert(ps[41].take(4) =~= "DROP"@);
    assert forall|k: int| 0 <= k < ps.len() implies starts_with_spec(#[trigger] ps[k], "CREATE"@)
        || starts_with_spec(ps[k], "ALTER"@) || starts_with_spec(ps[k], "DROP"@) by {
        assert(0 <= k < 42);
    }
}

proof fn lemma_no_prefix(n: Seq<char>, k: int)
    requires
        0 <= k <= statement_prefixes().len(),
        !starts_with_spec(n, "CREATE"@),
        !starts_with_spec(n, "ALTER"@),
        !starts_with_spec(n, "DROP"@),
    ensures
        first_prefix(n, statement_prefixes(), k) is None,
    decreases statement_prefixes().len() - k,
{
    if k < statement_prefixes().len() {
        lemma_prefixes_lead_words();
        let p = statement_prefixes()[k];
        if starts_with_spec(n, p) {
            if starts_with_spec(p, "CREATE"@) {
                lemma_starts_with_trans(n, p, "CREATE"@);
            } else if starts_with_spec(p, "ALTER"@) {
                lemma_starts_with_trans(n, p, "ALTER"@);
            } else {
                lemma_starts_with_trans(n, p, "DROP"@);
            }
        }
        lemma_no_prefix(n, k + 1);
    }
}

/// Law: a statement whose first word (upper-cased) is `INSERT`, `SELECT`,
/// `UPDATE`, `DELETE`, `MERGE`, `GRANT` or `REVOKE`, and that begins with
/// none of `CREATE`, `ALTER`, `DROP`, has that one word as its type.
pub proof fn lemma_single_word_statements(code: Seq<char>)
    ensures
        ({
            let n = statement_text(code);
            let ws = words(n);
            &&& ws.len() > 0
            &&& single_word_statements().contains(ws[0])
            &&& !starts_with_spec(n, "CREATE"@)
            &&& !starts_with_spec(n, "ALTER"@)
            &&& !starts_with_spec(n, "DROP"@)
        }) ==> statement_type(code) == words(statement_text(code))[0],
{
    let n = statement_text(code);
    let ws = words(n);
    if ws.len() > 0 && single_word_statements().contains(ws[0]) && !starts_with_spec(n, "CREATE"@)
        && !starts_with_spec(n, "ALTER"@) && !starts_with_spec(n, "DROP"@) {
        lemma_no_prefix(n, 0);
        let l = single_word_statements();
        let i = choose|i: int| 0 <= i < l.len() && l[i] == ws[0];
        assert(l[0] == "INSERT"@ && l[1] == "SELECT"@ && l[2] == "UPDATE"@ && l[3] == "DELETE"@);
        assert(l[4] == "MERGE"@ && l[5] == "GRANT"@ && l[6] == "REVOKE"@);
        assert(is_dml_keyword(ws[0]));
    }
}

/// The schema statements typed by their leading words, each listed before
/// any shorter form it begins with: `CREATE` forms (with `OR REPLACE`,
/// `MATERIALIZED`, `VIRTUAL`, `UNIQUE` variants), `ALTER TABLE`, and `DROP`
/// forms.
pub open spec fn schema_statement_forms() -> Seq<Seq<char>> {
    seq![
        "CREATE OR REPLACE PACKAGE BODY"@,
        "CREATE OR REPLACE PACKAGE"@,
        "CREATE OR REPLACE PUBLIC SYNONYM"@,
        "CREATE OR REPLACE SYNONYM"@,
        "CREATE OR REPLACE TYPE BODY"@,
        "CREATE OR REPLACE TYPE"@,
        "CREATE OR REPLACE PROCEDURE"@,
        "CREATE OR REPLACE FUNCTION"@,
        "CREATE OR REPLACE TRIGGER"@,
        "CREATE MATERIALIZED VIEW"@,
        "CREATE VIRTUAL TABLE"@,
        "CREATE PACKAGE BODY"@,
        "CREATE PACKAGE"@,
        "CREATE TYPE BODY"@,
        "CREATE TABLESPACE"@,
        "CREATE UNIQUE INDEX"@,
        "CREATE PROCEDURE"@,
        "CREATE FUNCTION"@,
        "CREATE TABLE"@,
        "CREATE VIEW"@,
        "CREATE INDEX"@,
        "CREATE TRIGGER"@,
        "CREATE SEQUENCE"@,
        "CREATE TYPE"@,
        "CREATE SCHEMA"@,
        "CREATE DATABASE"@,
        "CREATE EXTENSION"@,
        "CREATE ROLE"@,
        "CREATE POLICY"@,
        "CREATE SYNONYM"@,
        "ALTER TABLE"@,
        "DROP TABLE IF EXISTS"@,
        "DROP TABLE"@,
        "DROP VIEW"@,
        "DROP FUNCTION"@,
        "DROP PROCEDURE"@,
        "DROP INDEX"@,
        "DROP TYPE"@,
        "DROP SEQUENCE"@,
        "DROP EXTENSION"@,
        "DROP SCHEMA"@,
        "DROP TRIGGER"@,
    ]
}

proof fn lemma_first_prefix_found(n: Seq<char>, ps: Seq<Seq<char>>, k: int, j: int)
    requires
        0 <= k <= j < ps.len(),
        starts_with_spec(n, ps[j]),
    ensures
        first_prefix(n, ps, k) matches Some(p) && ps.contains(p) && starts_with_spec(n, p),
    decreases j - k,
{
    if !starts_with_spec(n, ps[k]) {
        lemma_first_prefix_found(n, ps, k + 1, j);
    }
}

/// Law: a statement that begins with one of `schema_statement_forms` has
/// one of those forms as its type, and the statement begins with it (`DROP
/// TABLE IF EXISTS` is typed `DROP TABLE`).
pub proof fn lemma_schema_statement_types(code: Seq<char>)
    ensures
        (exists|i: int| 0 <= i < schema_statement_forms().len() && starts_with_spec(
            statement_text(code),
            #[trigger] schema_statement_forms()[i],
        )) ==> schema_statement_forms().contains(statement_type(code)) && starts_with_spec(
            statement_text(code),
            statement_type(code),
        ),
{
    let n = statement_text(code);
    let f = schema_statement_forms();
    assert(f =~= statement_prefixes());
    if exists|i: int| 0 <= i < f.len() && starts_with_spec(n, #[trigger] f[i]) {
        let i = choose|i: int| 0 <= i < f.len() && starts_with_spec(n, #[trigger] f[i]);
        lemma_first_prefix_found(n, f, 0, i);
        let p = first_prefix(n, f, 0)->0;
        if p == "DROP TABLE IF EXISTS"@ {
            reveal_strlit("DROP TABLE IF EXISTS");
            reveal_strlit("DROP TABLE");
            assert("DROP TABLE IF EXISTS"@.take(10) =~= "DROP TABLE"@);
            lemma_starts_with_trans(n, p, "DROP TABLE"@);
            assert(f[32] == "DROP TABLE"@);
        }
    }
}

fn statement_prefix_list() -> (r: Vec<&'static str>)
    ensures
        r@.len() == statement_prefixes().len(),
        forall|k: int| 0 <= k < r@.len() ==> (#[trigger] r@[k])@ == statement_prefixes()[k],
{
    let r: Vec<&'static str> = vec![
        "CREATE OR REPLACE PACKAGE BODY",
        "CREATE OR REPLACE PACKAGE",
        "CREATE OR REPLACE PUBLIC SYNONYM",
        "CREATE OR REPLACE SYNONYM",
        "CREATE OR REPLACE TYPE BODY",
        "CREATE OR REPLACE TYPE",
        "CREATE OR REPLACE PROCEDURE",
        "CREATE OR REPLACE FUNCTION",
        "CREATE OR REPLACE TRIGGER",
        "CREATE MATERIALIZED VIEW",
        "CREATE VIRTUAL TABLE",
        "CREATE PACKAGE BODY",
        "CREATE PACKAGE",
        "CREATE TYPE BODY",
        "CREATE TABLESPACE",
        "CREATE UNIQUE INDEX",
        "CREATE PROCEDURE",
        "CREATE FUNCTION",
        "CREATE TABLE",
        "CREATE VIEW",
        "CREATE INDEX",
        "CREATE TRIGGER",
        "CREATE SEQUENCE",
        "CREATE TYPE",
        "CREATE SCHEMA",
        "CREATE DATABASE",
        "CREATE EXTENSION",
        "CREATE ROLE",
        "CREATE POLICY",
        "CREATE SYNONYM",
        "ALTER TABLE",
        "DROP TABLE IF EXISTS",
        "DROP TABLE",
        "DROP VIEW",
        "DROP FUNCTION",
        "DROP PROCEDURE",
        "DROP INDEX",
        "DROP TYPE",
        "DROP SEQUENCE",
        "DROP EXTENSION",
        "DROP SCHEMA",
        "DROP TRIGGER",
    ];
    assert(r@ =~= seq![
        "CREATE OR REPLACE PACKAGE BODY",
        "CREATE OR REPLACE PACKAGE",
        "CREATE OR REPLACE PUBLIC SYNONYM",
        "CREATE OR REPLACE SYNONYM",
        "CREATE OR REPLACE TYPE BODY",
        "CREATE OR REPLACE TYPE",
        "CREATE OR REPLACE PROCEDURE",
        "CREATE OR REPLACE FUNCTION",
        "CREATE OR REPLACE TRIGGER",
        "CREATE MATERIALIZED VIEW",
        "CREATE VIRTUAL TABLE",
        "CREATE PACKAGE BODY",
        "CREATE PACKAGE",
        "CREATE TYPE BODY",
        "CREATE TABLESPACE",
        "CREATE UNIQUE INDEX",
        "CREATE PROCEDURE",
        "CREATE FUNCTION",
        "CREATE TABLE",
        "CREATE VIEW",
        "CREATE INDEX",
        "CREATE TRIGGER",
        "CREATE SEQUENCE",
        "CREATE TYPE",
        "CREATE SCHEMA",
        "CREATE DATABASE",
        "CREATE EXTENSION",
        "CREATE ROLE",
        "CREATE POLICY",
        "CREATE SYNONYM",
        "ALTER TABLE",
        "DROP TABLE IF EXISTS",
        "DROP TABLE",
        "DROP VIEW",
        "DROP FUNCTION",
        "DROP PROCEDURE",
        "DROP INDEX",
        "DROP TYPE",
        "DROP SEQUENCE",
        "DROP EXTENSION",
        "DROP SCHEMA",
        "DROP TRIGGER",
    ]);
    r
}

/// Infers the statement type of a SQL text (see `statement_type`).
/// A `CREATE <kind>` pattern that the statement type could also be read
/// from adds nothing here: every text it matches starts with one of the
/// prefixes, which are tried first.
pub fn infer_statement_type(code: &str) -> (r: String)
    ensures
        r@ == statement_type(code@),
{
    let collapsed = collapse_whitespace(code);
    let normalized = to_uppercase(collapsed.as_str());
    let nv = chars_of(normalized.as_str());
    let prefixes = statement_prefix_list();
    let mut k: usize = 0;
    while k < prefixes.len()
        invariant
            k <= prefixes.len(),
            nv@ == normalized@,
            normalized@ == upper_spec(collapse_ws(code@)),
            prefixes@.len() == statement_prefixes().len(),
            forall|j: int| 0 <= j < prefixes@.len() ==> (#[trigger] prefixes@[j])@ == statement_prefixes()[j],
            first_prefix(nv@, statement_prefixes(), k as int) == first_prefix(nv@, statement_prefixes(), 0),
        decreases prefixes.len() - k,
    {
        let p = prefixes[k];
        assert(p@ == statement_prefixes()[k as int]);
        if starts_with_chars(&nv, &chars_of(p)) {
            assert(first_prefix(nv@, statement_prefixes(), k as int) == Some(p@));
            if str_eq(p, "DROP TABLE IF EXISTS") {
                return "DROP TABLE".to_owned();
            }
            return p.to_owned();
        }
        k += 1;
    }
    let ws = crate::scrape::split_words(&nv);
    if ws.len() > 0 {
        let w0 = string_of(&ws[0]);
        let w = w0.as_str();
        if str_eq(w, "INSERT") || str_eq(w, "SELECT") || str_eq(w, "UPDATE") || str_eq(w, "DELETE")
            || str_eq(w, "MERGE") || str_eq(w, "GRANT") || str_eq(w, "REVOKE") {
            return w0;
        }
        if ws.len() >= 2 {
            let w1 = string_of(&ws[1]);
            let a = concat_str(w, " ");
            return concat_str(a.as_str(), w1.as_str());
        }
        return w0;
    }
    "UNKNOWN".to_owned()
}

// ---------------------------------------------------------------------------
// Junk filtering
// ---------------------------------------------------------------------------

/// Statement types kept in the final chunk list, by prefix.
pub open spec fn known_statement_prefixes() -> Seq<Seq<char>> {
    seq![
        "CREATE TABLE"@,
        "CREATE VIRTUAL TABLE"@,
        "CREATE VIEW"@,
        "CREATE MATERIALIZED VIEW"@,
        "CREATE INDEX"@,
        "CREATE UNIQUE INDEX"@,
        "CREATE FUNCTION"@,
        "CREATE PROCEDURE"@,
        "CREATE TRIGGER"@,
        "CREATE TYPE"@,
        "CREATE TYPE BODY"@,
        "CREATE SEQUENCE"@,
        "CREATE SCHEMA"@,
        "CREATE DATABASE"@,
        "CREATE EXTENSION"@,
        "CREATE ROLE"@,
        "CREATE POLICY"@,
        "CREATE TABLESPACE"@,
        "CREATE SYNONYM"@,
        "CREATE PACKAGE"@,
        "CREATE PACKAGE BODY"@,
        "CREATE OR REPLACE"@,
        "ALTER TABLE"@,
        "ALTER VIEW"@,
        "ALTER INDEX"@,
        "ALTER SCHEMA"@,
        "DROP TABLE"@,
        "DROP VIEW"@,
        "DROP FUNCTION"@,
        "DROP PROCEDURE"@,
        "DROP INDEX"@,
        "DROP TYPE"@,
        "DROP SEQUENCE"@,
        "DROP EXTENSION"@,
        "DROP SCHEMA"@,
        "DROP TRIGGER"@,
        "INSERT"@,
        "SELECT"@,
        "UPDATE"@,
        "DELETE"@,
        "MERGE"@,
        "GRANT"@,
        "REVOKE"@,
    ]
}

/// The text of an optional string, empty when absent.
pub open spec fn opt_text(o: Option<String>) -> Seq<char> {
    match o {
        Some(s) => s@,
        None => Seq::empty(),
    }
}

/// Whether a chunk survives the junk filter: chunks of other languages
/// always do; a SQL chunk does when its upper-cased statement type is not
/// blank and starts with a known statement prefix.
pub open spec fn keeps_chunk(c: CodeChunk) -> bool {
    match c.kind {
        CodeChunkKind::Sql(f) => kept_statement(upper_spec(opt_text(f.statement_type))),
        _ => true,
    }
}

/// An upper-cased statement type that is not blank and starts with a known
/// statement prefix.
pub open spec fn kept_statement(stmt: Seq<char>) -> bool {
    trim_spec(stmt).len() > 0 && exists|k: int|
        0 <= k < known_statement_prefixes().len() && starts_with_spec(
            stmt,
            #[trigger] known_statement_prefixes()[k],
        )
}

fn known_prefix_list() -> (r: Vec<&'static str>)
    ensures
        r@.len() == known_statement_prefixes().len(),
        forall|k: int| 0 <= k < r@.len() ==> (#[trigger] r@[k])@ == known_statement_prefixes()[k],
{
    let r: Vec<&'static str> = vec![
        "CREATE TABLE",
        "CREATE VIRTUAL TABLE",
        "CREATE VIEW",
        "CREATE MATERIALIZED VIEW",
        "CREATE INDEX",
        "CREATE UNIQUE INDEX",
        "CREATE FUNCTION",
        "CREATE PROCEDURE",
        "CREATE TRIGGER",
        "CREATE TYPE",
        "CREATE TYPE BODY",
        "CREATE SEQUENCE",
        "CREATE SCHEMA",
        "CREATE DATABASE",
        "CREATE EXTENSION",
        "CREATE ROLE",
        "CREATE POLICY",
        "CREATE TABLESPACE",
        "CREATE SYNONYM",
        "CREATE PACKAGE",
        "CREATE PACKAGE BODY",
        "CREATE OR REPLACE",
        "ALTER TABLE",
        "ALTER VIEW",
        "ALTER INDEX",
        "ALTER SCHEMA",
        "DROP TABLE",
        "DROP VIEW",
        "DROP FUNCTION",
        "DROP PROCEDURE",
        "DROP INDEX",
        "DROP TYPE",
        "DROP SEQUENCE",
        "DROP EXTENSION",
        "DROP SCHEMA",
        "DROP TRIGGER",
        "INSERT",
        "SELECT",
        "UPDATE",
        "DELETE",
        "MERGE",
        "GRANT",
        "REVOKE",
    ];
    assert(r@ =~= seq![
        "CREATE TABLE",
        "CREATE VIRTUAL TABLE",
        "CREATE VIEW",
        "CREATE MATERIALIZED VIEW",
        "CREATE INDEX",
        "CREATE UNIQUE INDEX",
        "CREATE FUNCTION",
        "CREATE PROCEDURE",
        "CREATE TRIGGER",
        "CREATE TYPE",
        "CREATE TYPE BODY",
        "CREATE SEQUENCE",
        "CREATE SCHEMA",
        "CREATE DATABASE",
        "CREATE EXTENSION",
        "CREATE ROLE",
        "CREATE POLICY",
        "CREATE TABLESPACE",
        "CREATE SYNONYM",
        "CREATE PACKAGE",
        "CREATE PACKAGE BODY",
        "CREATE OR REPLACE",
        "ALTER TABLE",
        "ALTER VIEW",
        "ALTER INDEX",
        "ALTER SCHEMA",
        "DROP TABLE",
        "DROP VIEW",
        "DROP FUNCTION",
        "DROP PROCEDURE",
        "DROP INDEX",
        "DROP TYPE",
        "DROP SEQUENCE",
        "DROP EXTENSION",
        "DROP SCHEMA",
        "DROP TRIGGER",
        "INSERT",
        "SELECT",
        "UPDATE",
        "DELETE",
        "MERGE",
        "GRANT",
        "REVOKE",
    ]);
    r
}

fn keep_chunk(c: &CodeChunk) -> (r: bool)
    ensures
        r == keeps_chunk(*c),
{
    match &c.kind {
        CodeChunkKind::Sql(f) => {
            let stmt = match &f.statement_type {
                Some(s) => to_uppercase(s.as_str()),
                None => to_uppercase(""),
            };
            let sv = chars_of(stmt.as_str());
            let t = trim_str(stmt.as_str());
            let ghost want = upper_spec(opt_text(f.statement_type));
            proof {
                reveal_strlit("");
                assert(""@ =~= Seq::<char>::empty());
            }
            assert(stmt@ == want);
            if t.as_str().is_empty() {
                return false;
            }
            let ps = known_prefix_list();
            let mut k: usize = 0;
            while k < ps.len()
                invariant
                    k <= ps.len(),
                    sv@ == stmt@,
                    stmt@ == want,
                    want == upper_spec(opt_text(f.statement_type)),
                    trim_spec(want).len() > 0,
                    c.kind == CodeChunkKind::Sql(*f),
                    ps@.len() == known_statement_prefixes().len(),
                    forall|j: int| 0 <= j < ps@.len() ==> (#[trigger] ps@[j])@ == known_statement_prefixes()[j],
                    forall|j: int| 0 <= j < k ==> !starts_with_spec(sv@, #[trigger] known_statement_prefixes()[j]),
                decreases ps.len() - k,
            {
                assert(ps@[k as int]@ == known_statement_prefixes()[k as int]);
                if starts_with_chars(&sv, &chars_of(ps[k])) {
                    assert(starts_with_spec(want, known_statement_prefixes()[k as int]));
                    assert(exists|j: int|
                        0 <= j < known_statement_prefixes().len() && starts_with_spec(
                            want,
                            #[trigger] known_statement_prefixes()[j],
                        ));
                    assert(kept_statement(want));
                    return true;
                }
                k += 1;
            }
            false
        },
        _ => true,
    }
}

/// Drops SQL chunks whose statement type is blank or not recognised; other
/// chunks are kept. The order is preserved.
pub fn filter_junk_chunks(chunks: Vec<CodeChunk>) -> (r: Vec<CodeChunk>)
    ensures
        r@ == chunks@.filter(|c: CodeChunk| keeps_chunk(c)),
{
    let mut rest = chunks;
    let ghost all = rest@;
    let mut kept_rev: Vec<CodeChunk> = Vec::new();
    while rest.len() > 0
        invariant
            rest@ == all.take(rest@.len() as int),
            rest@.len() <= all.len(),
            all.skip(rest@.len() as int).filter(|c: CodeChunk| keeps_chunk(c)) == kept_rev@.reverse(),
        decreases rest@.len(),
    {
        let n = rest.len();
        let ghost before_rev = kept_rev@;
        let c = rest.pop().unwrap();
        proof {
            let tail = all.skip(n - 1);
            assert(tail =~= seq![c] + all.skip(n as int));
            Seq::filter_distributes_over_add(seq![c], all.skip(n as int), |c: CodeChunk| keeps_chunk(c));
            reveal_with_fuel(Seq::filter, 2);
            assert(seq![c].drop_last() =~= Seq::<CodeChunk>::empty());
            assert(Seq::<CodeChunk>::empty().filter(|c: CodeChunk| keeps_chunk(c)) =~= Seq::<CodeChunk>::empty());
            assert(seq![c].filter(|c: CodeChunk| keeps_chunk(c)) == if keeps_chunk(c) {
                seq![c]
            } else {
                Seq::<CodeChunk>::empty()
            });
        }
        if keep_chunk(&c) {
            kept_rev.push(c);
            assert(kept_rev@.reverse() =~= seq![c] + before_rev.reverse());
        }
        proof {
            assert(rest@ =~= all.take(rest@.len() as int));
        }
    }
    let mut kept: Vec<CodeChunk> = Vec::new();
    proof {
        assert(all.skip(0) =~= all);
        assert(kept@ + kept_rev@.reverse() =~= all.filter(|c: CodeChunk| keeps_chunk(c)));
    }
    while kept_rev.len() > 0
        invariant
            kept@ + kept_rev@.reverse() == all.filter(|c: CodeChunk| keeps_chunk(c)),
        decreases kept_rev@.len(),
    {
        let ghost before = kept_rev@;
        let c = kept_rev.pop().unwrap();
        assert(before.reverse() =~= seq![c] + kept_rev@.reverse());
        kept.push(c);
    }
    kept
}

// ---------------------------------------------------------------------------
// The file remainder chunk
// ---------------------------------------------------------------------------

/// Builds the chunk holding what the chunkers left of a file: `None` when
/// that text is blank; otherwise a `file_remainder` chunk named after the
/// file, with the text normalized and the file's dependencies.
pub fn make_remainder_chunk(source_bytes: &[u8], spans: &[Span], file_path: &str, dependencies: &Vec<String>) -> (r: Option<CodeChunk>)
    ensures
        match r {
            None => trim_spec(utf8_lossy_spec(remainder_bytes(source_bytes@, spans@))).len() == 0,
            Some(c) => {
                &&& trim_spec(utf8_lossy_spec(remainder_bytes(source_bytes@, spans@))).len() > 0
                &&& crate::sql::is_uuid_v4_text(c.id@, true)
                &&& c.repo_name@.len() == 0
                &&& c.file_name@ == base_name(file_path@)
                &&& c.code@ == normalize_code_spec(utf8_lossy_spec(remainder_bytes(source_bytes@, spans@)))
                &&& c.chunk_type@ == "file_remainder"@
                &&& views(c.dependencies@) == views(dependencies@)
                &&& c.kind == CodeChunkKind::Generic
            },
        },
{
    let code = build_remainder_code(source_bytes, spans);
    let t = trim_str(code.as_str());
    if t.as_str().is_empty() {
        return None;
    }
    Some(
        CodeChunk {
            id: new_uuid_string(),
            repo_name: String::new(),
            file_name: base_name_of(file_path),
            code: normalize_code(code.as_str()),
            chunk_type: "file_remainder".to_owned(),
            dependencies: copy_strings(dependencies),
            created_at: now_iso(),
            kind: CodeChunkKind::Generic,
        },
    )
}

// ---------------------------------------------------------------------------
// Merging ALTER TABLE chunks
// ---------------------------------------------------------------------------

/// A SQL chunk whose statement type is exactly `ALTER TABLE`.
pub open spec fn is_alter_table(c: CodeChunk) -> bool {
    match c.kind {
        CodeChunkKind::Sql(f) => match f.statement_type {
            Some(s) => s@ == "ALTER TABLE"@,
            None => false,
        },
        _ => false,
    }
}

/// The grouping key of an `ALTER TABLE` chunk: its object name (empty when
/// unknown), lower-cased.
pub open spec fn alter_key(c: CodeChunk) -> Seq<char> {
    match c.kind {
        CodeChunkKind::Sql(f) => lower_spec(opt_text(f.object_name)),
        _ => Seq::empty(),
    }
}

/// The chunks that are not `ALTER TABLE` chunks, in order.
pub open spec fn non_alter(s: Seq<CodeChunk>) -> Seq<CodeChunk>
    decreases s.len(),
{
    if s.len() == 0 {
        Seq::empty()
    } else if is_alter_table(s.last()) {
        non_alter(s.drop_last())
    } else {
        non_alter(s.drop_last()).push(s.last())
    }
}

/// The keys of the `ALTER TABLE` chunks, each once, in order of first appearance.
pub open spec fn alter_keys(s: Seq<CodeChunk>) -> Seq<Seq<char>>
    decreases s.len(),
{
    if s.len() == 0 {
        Seq::empty()
    } else {
        let p = alter_keys(s.drop_last());
        if is_alter_table(s.last()) && !p.contains(alter_key(s.last())) {
            p.push(alter_key(s.last()))
        } else {
            p
        }
    }
}

/// The `ALTER TABLE` chunks with the given key, in order.
pub open spec fn alter_group(s: Seq<CodeChunk>, key: Seq<char>) -> Seq<CodeChunk>
    decreases s.len(),
{
    if s.len() == 0 {
        Seq::empty()
    } else if is_alter_table(s.last()) && alter_key(s.last()) == key {
        alter_group(s.drop_last(), key).push(s.last())
    } else {
        alter_group(s.drop_last(), key)
    }
}

pub open spec fn codes(s: Seq<CodeChunk>) -> Seq<Seq<char>> {
    Seq::new(s.len(), |i: int| s[i].code@)
}

/// The chunk standing for one group: the codes joined by blank lines,
/// names and file from the first chunk of the group.
pub open spec fn is_merged_alter(m: CodeChunk, g: Seq<CodeChunk>, key: Seq<char>, file_path: Seq<char>, deps: Seq<Seq<char>>, database_name: Option<Seq<char>>) -> bool {
    &&& m.code@ == join(codes(g), "\n\n"@)
    &&& m.repo_name@ == g[0].repo_name@
    &&& m.file_name@ == g[0].file_name@
    &&& m.chunk_type@ == "sql_statement"@
    &&& views(m.dependencies@) == deps
    &&& exists|suffix: Seq<char>| suffix.len() == 8 && m.id@ == base_name(file_path) + "-"@ + key + "-"@ + suffix
    &&& m.kind matches CodeChunkKind::Sql(f) && {
        &&& opt_view(f.statement_type) == Some("ALTER TABLE"@)
        &&& g[0].kind matches CodeChunkKind::Sql(f0) && opt_view(f.object_name) == opt_view(f0.object_name) && opt_view(f.schema_name) == opt_view(f0.schema_name)
        &&& opt_view(f.database_name) == database_name
    }
}

proof fn lemma_group_needs_key(s: Seq<CodeChunk>, key: Seq<char>)
    ensures
        alter_group(s, key).len() > 0 ==> alter_keys(s).contains(key),
        alter_keys(s).contains(key) ==> alter_group(s, key).len() > 0,
    decreases s.len(),
{
    if s.len() > 0 {
        let t = s.drop_last();
        let c = s.last();
        lemma_group_needs_key(t, key);
        let p = alter_keys(t);
        let k = alter_keys(s);
        if is_alter_table(c) && !p.contains(alter_key(c)) {
            assert(k == p.push(alter_key(c)));
            if alter_group(s, key).len() > 0 {
                if alter_key(c) == key {
                    assert(k[p.len() as int] == key);
                } else {
                    assert(alter_group(s, key) == alter_group(t, key));
                    let i = choose|i: int| 0 <= i < p.len() && p[i] == key;
                    assert(k[i] == key);
                }
            }
            if k.contains(key) {
                let i = choose|i: int| 0 <= i < k.len() && k[i] == key;
                if i < p.len() {
                    assert(p[i] == key);
                    assert(p.contains(key));
                }
            }
        } else {
            assert(k == p);
            if is_alter_table(c) && alter_key(c) == key {
                assert(p.contains(key));
            }
        }
    }
}

proof fn lemma_keys_distinct(s: Seq<CodeChunk>)
    ensures
        forall|a: int, b: int|
            0 <= a < b < alter_keys(s).len() ==> alter_keys(s)[a] != alter_keys(s)[b],
    decreases s.len(),
{
    if s.len() > 0 {
        lemma_keys_distinct(s.drop_last());
        let p = alter_keys(s.drop_last());
        if is_alter_table(s.last()) && !p.contains(alter_key(s.last())) {
            let k = alter_keys(s);
            assert forall|a: int, b: int| 0 <= a < b < k.len() implies k[a] != k[b] by {
                if b == p.len() {
                    if k[a] == k[b] {
                        assert(p[a] == alter_key(s.last()));
                    }
                }
            }
        }
    }
}

/// The chunks once grouped: non-`ALTER TABLE` chunks first, in order.
struct AlterGroups {
    others: Vec<CodeChunk>,
    keys: Vec<String>,
    groups: Vec<Vec<CodeChunk>>,
}

spec fn groups_match(g: AlterGroups, t: Seq<CodeChunk>) -> bool {
    &&& g.others@ == non_alter(t)
    &&& g.keys@.len() == alter_keys(t).len()
    &&& g.groups@.len() == alter_keys(t).len()
    &&& forall|j: int| 0 <= j < g.keys@.len() ==> (#[trigger] g.keys@[j])@ == alter_keys(t)[j]
    &&& forall|j: int| 0 <= j < g.groups@.len() ==> (#[trigger] g.groups@[j])@ == alter_group(t, alter_keys(t)[j])
}

fn find_key(keys: &Vec<String>, key: &str) -> (r: Option<usize>)
    ensures
        match r {
            Some(j) => j < keys@.len() && keys@[j as int]@ == key@,
            None => forall|i: int| 0 <= i < keys@.len() ==> (#[trigger] keys@[i])@ != key@,
        },
{
    let mut j: usize = 0;
    while j < keys.len()
        invariant
            j <= keys.len(),
            forall|i: int| 0 <= i < j ==> (#[trigger] keys@[i])@ != key@,
        decreases keys.len() - j,
    {
        if str_eq(keys[j].as_str(), key) {
            return Some(j);
        }
        j += 1;
    }
    None
}

fn alter_key_of(c: &CodeChunk) -> (r: String)
    requires
        is_alter_table(*c),
    ensures
        r@ == alter_key(*c),
{
    match &c.kind {
        CodeChunkKind::Sql(f) => match &f.object_name {
            Some(n) => to_lowercase(n.as_str()),
            None => {
                proof {
                    reveal_strlit("");
                    assert(""@ =~= Seq::<char>::empty());
                }
                to_lowercase("")
            },
        },
        _ => String::new(),
    }
}

fn is_alter_chunk(c: &CodeChunk) -> (r: bool)
    ensures
        r == is_alter_table(*c),
{
    match &c.kind {
        CodeChunkKind::Sql(f) => match &f.statement_type {
            Some(s) => str_eq(s.as_str(), "ALTER TABLE"),
            None => false,
        },
        _ => false,
    }
}

fn add_chunk(g: &mut AlterGroups, c: CodeChunk, Ghost(t): Ghost<Seq<CodeChunk>>)
    requires
        groups_match(*old(g), t),
    ensures
        groups_match(*final(g), t.push(c)),
{
    let ghost t2 = t.push(c);
    assert(t2.drop_last() =~= t);
    assert(t2.last() == c);
    proof {
        lemma_keys_distinct(t);
    }
    if !is_alter_chunk(&c) {
        g.others.push(c);
        assert forall|j: int| 0 <= j < g.groups@.len() implies (#[trigger] g.groups@[j])@ == alter_group(t2, alter_keys(t2)[j]) by {
            assert(alter_group(t2, alter_keys(t2)[j]) == alter_group(t, alter_keys(t)[j]));
        }
        return;
    }
    let key = alter_key_of(&c);
    let found = find_key(&g.keys, key.as_str());
    let j: usize = match found {
        Some(j) => j,
        None => g.keys.len(),
    };
    if j < g.keys.len() {
        assert(alter_keys(t)[j as int] == key@);
        assert(alter_keys(t).contains(key@));
        assert(alter_keys(t2) =~= alter_keys(t));
        let mut grp = g.groups.remove(j);
        let ghost before = grp@;
        grp.push(c);
        g.groups.insert(j, grp);
        assert forall|i: int| 0 <= i < g.groups@.len() implies (#[trigger] g.groups@[i])@ == alter_group(t2, alter_keys(t2)[i]) by {
            if i != j {
                assert(alter_keys(t)[i] != alter_keys(t)[j as int]);
            }
        }
    } else {
        assert forall|i: int| 0 <= i < alter_keys(t).len() implies alter_keys(t)[i] != key@ by {
            assert(g.keys@[i]@ == alter_keys(t)[i]);
        }
        assert(!alter_keys(t).contains(key@));
        assert(alter_keys(t2) =~= alter_keys(t).push(key@));
        proof {
            lemma_group_needs_key(t, key@);
        }
        let mut grp: Vec<CodeChunk> = Vec::new();
        grp.push(c);
        g.keys.push(key);
        g.groups.push(grp);
        assert(grp@ =~= seq![c]);
        assert forall|i: int| 0 <= i < g.groups@.len() implies (#[trigger] g.groups@[i])@ == alter_group(t2, alter_keys(t2)[i]) by {
            if i < g.groups@.len() - 1 {
                assert(alter_keys(t)[i] != key@);
            } else {
                assert(alter_group(t, key@) =~= Seq::<CodeChunk>::empty());
            }
        }
    }
}

fn merged_alter_chunk(g: &Vec<CodeChunk>, key: &str, file_path: &str, deps: &Vec<String>, database_name: Option<&str>) -> (m: CodeChunk)
    requires
        g@.len() > 0,
        g@[0].kind is Sql,
    ensures
        is_merged_alter(m, g@, key@, file_path@, views(deps@), match database_name {
            Some(d) => Some(d@),
            None => None,
        }),
{
    let mut code_parts: Vec<String> = Vec::new();
    let mut i: usize = 0;
    while i < g.len()
        invariant
            i <= g.len(),
            views(code_parts@) == codes(g@).take(i as int),
        decreases g.len() - i,
    {
        let ghost before = views(code_parts@);
        code_parts.push(g[i].code.clone());
        assert(views(code_parts@) =~= before.push(g@[i as int].code@));
        i += 1;
        assert(codes(g@).take(i as int) =~= codes(g@).take(i - 1).push(g@[i - 1].code@));
    }
    assert(codes(g@).take(g.len() as int) =~= codes(g@));
    let code = crate::seqtext::join_strings(&code_parts, "\n\n");
    let first = &g[0];
    let (object_name, schema_name) = match &first.kind {
        CodeChunkKind::Sql(f) => (crate::chunk_types::copy_opt(&f.object_name), crate::chunk_types::copy_opt(&f.schema_name)),
        _ => (None, None),
    };
    let db = match database_name {
        Some(d) => Some(d.to_owned()),
        None => None,
    };
    CodeChunk {
        id: generate_chunk_id(file_path, key),
        repo_name: first.repo_name.clone(),
        file_name: first.file_name.clone(),
        code,
        chunk_type: "sql_statement".to_owned(),
        dependencies: copy_strings(deps),
        created_at: now_iso(),
        kind: CodeChunkKind::Sql(
            SqlFields {
                statement_type: Some("ALTER TABLE".to_owned()),
                object_name,
                schema_name,
                database_name: db,
            },
        ),
    }
}

/// Groups `ALTER TABLE` chunks by lower-cased object name: the other
/// chunks come first, unchanged and in order; then one chunk per group, in
/// order of first appearance, holding the group's code joined by blank
/// lines under the names of the group's first chunk.
pub fn merge_alter_table_chunks(chunks: Vec<CodeChunk>, file_path: &str, deps: &Vec<String>, database_name: Option<&str>) -> (r: Vec<CodeChunk>)
    ensures
        r@.len() == non_alter(chunks@).len() + alter_keys(chunks@).len(),
        r@.take(non_alter(chunks@).len() as int) == non_alter(chunks@),
        forall|j: int| 0 <= j < alter_keys(chunks@).len() ==> is_merged_alter(
            #[trigger] r@[non_alter(chunks@).len() + j],
            alter_group(chunks@, alter_keys(chunks@)[j]),
            alter_keys(chunks@)[j],
            file_path@,
            views(deps@),
            match database_name {
                Some(d) => Some(d@),
                None => None,
            },
        ),
{
    let ghost all = chunks@;
    let mut rest = chunks;
    let mut rev: Vec<CodeChunk> = Vec::new();
    while rest.len() > 0
        invariant
            rest@ + rev@.reverse() == all,
        decreases rest@.len(),
    {
        let ghost before = rev@;
        let c = rest.pop().unwrap();
        rev.push(c);
        assert(rev@.reverse() =~= seq![c] + before.reverse());
    }
    assert(rest@ =~= Seq::<CodeChunk>::empty());
    let mut g = AlterGroups { others: Vec::new(), keys: Vec::new(), groups: Vec::new() };
    let ghost mut done: Seq<CodeChunk> = Seq::empty();
    assert(rev@.reverse() =~= all);
    while rev.len() > 0
        invariant
            done + rev@.reverse() == all,
            groups_match(g, done),
        decreases rev@.len(),
    {
        let ghost before = rev@;
        let c = rev.pop().unwrap();
        assert(before.reverse() =~= seq![c] + rev@.reverse());
        add_chunk(&mut g, c, Ghost(done));
        proof {
            done = done.push(c);
        }
    }
    assert(done =~= all);
    let AlterGroups { others, keys, groups } = g;
    let mut out = others;
    let ghost n = out@.len();
    let mut j: usize = 0;
    while j < groups.len()
        invariant
            j <= groups.len(),
            groups@.len() == alter_keys(all).len(),
            keys@.len() == alter_keys(all).len(),
            forall|i: int| 0 <= i < keys@.len() ==> (#[trigger] keys@[i])@ == alter_keys(all)[i],
            forall|i: int| 0 <= i < groups@.len() ==> (#[trigger] groups@[i])@ == alter_group(all, alter_keys(all)[i]),
            n == non_alter(all).len(),
            out@.len() == n + j,
            out@.take(n as int) == non_alter(all),
            forall|i: int| 0 <= i < j ==> is_merged_alter(
                #[trigger] out@[n + i],
                alter_group(all, alter_keys(all)[i]),
                alter_keys(all)[i],
                file_path@,
                views(deps@),
                match database_name {
                    Some(d) => Some(d@),
                    None => None,
                },
            ),
        decreases groups.len() - j,
    {
        proof {
            lemma_group_needs_key(all, alter_keys(all)[j as int]);
            assert(alter_keys(all).contains(alter_keys(all)[j as int]));
        }
        let grp = &groups[j];
        assert(grp@.len() > 0);
        proof {
            lemma_group_members_sql(all, alter_keys(all)[j as int]);
        }
        let m = merged_alter_chunk(grp, keys[j].as_str(), file_path, deps, database_name);
        let ghost before = out@;
        out.push(m);
        assert(out@.take(n as int) =~= before.take(n as int));
        j += 1;
    }
    out
}

proof fn lemma_group_members_sql(s: Seq<CodeChunk>, key: Seq<char>)
    ensures
        forall|i: int| 0 <= i < alter_group(s, key).len() ==> (#[trigger] alter_group(s, key)[i]).kind is Sql,
    decreases s.len(),
{
    if s.len() > 0 {
        lemma_group_members_sql(s.drop_last(), key);
    }
}

// ---------------------------------------------------------------------------
// Schema and object names from statement text
// ---------------------------------------------------------------------------

/// `GRANT ... ON <object>` / `REVOKE ... ON <object>`.
pub open spec fn grant_pattern() -> Seq<char> {
    "(?i)^(?:GRANT|REVOKE)\\s+.*?\\bON\\s+(\\S+)"@
}

/// `CREATE/ALTER/DROP [OR REPLACE] POLICY [IF [NOT] EXISTS] <name>`.
pub open spec fn policy_pattern() -> Seq<char> {
    "(?i)^(?:CREATE|ALTER|DROP)\\s+(?:OR\\s+REPLACE\\s+)?POLICY(?:\\s+IF\\s+(?:NOT\\s+)?EXISTS)?\\s+(\\S+)"@
}

/// `CREATE/ALTER/DROP ... <kind> [IF [NOT] EXISTS] <name>`.
pub open spec fn object_pattern() -> Seq<char> {
    "(?i)^(?:CREATE|ALTER|DROP)\\s+(?:OR\\s+REPLACE\\s+)?(?:PUBLIC\\s+)?(?:UNIQUE\\s+)?(?:MATERIALIZED\\s+VIEW|VIRTUAL\\s+TABLE|PACKAGE\\s+BODY|TYPE\\s+BODY|TABLESPACE|TABLE|VIEW|FUNCTION|PROCEDURE|INDEX|TRIGGER|TYPE|SEQUENCE|SCHEMA|DATABASE|EXTENSION|ROLE|SYNONYM|PACKAGE)(?:\\s+IF\\s+(?:NOT\\s+)?EXISTS)?\\s*(\\S+)"@
}

/// `s` without trailing `;` and `,` characters.
pub open spec fn without_trailing_punct(s: Seq<char>) -> Seq<char>
    decreases s.len(),
{
    if s.len() > 0 && (s.last() == ';' || s.last() == ',') {
        without_trailing_punct(s.drop_last())
    } else {
        s
    }
}

/// A captured name cut at its first `(` and stripped of trailing `;`/`,`.
pub open spec fn name_part(g: Seq<char>) -> Seq<char> {
    without_trailing_punct(g.take(first_index(g, '(', 0)))
}

/// `(schema, object)` named by a statement: from the first of the GRANT,
/// POLICY and general object patterns that matches its trimmed text.
pub open spec fn schema_and_object(code: Seq<char>) -> (Option<Seq<char>>, Option<Seq<char>>) {
    let t = trim_spec(code);
    match crate::patterns::regex_capture_spec(grant_pattern(), t, 1) {
        Some(g) => qualified_name(name_part(g)),
        None => match crate::patterns::regex_capture_spec(policy_pattern(), t, 1) {
            Some(g) => qualified_name(name_part(g)),
            None => match crate::patterns::regex_capture_spec(object_pattern(), t, 1) {
                Some(g) => qualified_name(name_part(g)),
                None => (None, None),
            },
        },
    }
}

fn name_part_of(g: &str) -> (r: String)
    ensures
        r@ == name_part(g@),
{
    let v = chars_of(g);
    let cut = first_index_exec(&v, '(');
    proof {
        lemma_first_index_bounds(v@, '(', 0);
    }
    let mut end = cut;
    while end > 0 && (v[end - 1] == ';' || v[end - 1] == ',')
        invariant
            end <= cut <= v.len(),
            cut == first_index(v@, '(', 0),
            without_trailing_punct(v@.take(end as int)) == without_trailing_punct(v@.take(cut as int)),
        decreases end,
    {
        assert(v@.take(end as int).drop_last() =~= v@.take(end - 1));
        end -= 1;
    }
    assert(without_trailing_punct(v@.take(end as int)) == v@.take(end as int));
    string_of_range(&v, 0, end)
}

fn qualified_of_capture(g: &str) -> (r: (Option<String>, Option<String>))
    ensures
        opt_view(r.0) == qualified_name(name_part(g@)).0,
        opt_view(r.1) == qualified_name(name_part(g@)).1,
{
    let raw = name_part_of(g);
    parse_qualified_name(raw.as_str())
}

/// Infers the schema and object name a SQL statement is about.
pub fn infer_schema_and_object_name(code: &str) -> (r: (Option<String>, Option<String>))
    ensures
        opt_view(r.0) == schema_and_object(code@).0,
        opt_view(r.1) == schema_and_object(code@).1,
{
    let t = trim_str(code);
    match crate::patterns::regex_capture("(?i)^(?:GRANT|REVOKE)\\s+.*?\\bON\\s+(\\S+)", t.as_str(), 1) {
        Some(g) => qualified_of_capture(g.as_str()),
        None => match crate::patterns::regex_capture("(?i)^(?:CREATE|ALTER|DROP)\\s+(?:OR\\s+REPLACE\\s+)?POLICY(?:\\s+IF\\s+(?:NOT\\s+)?EXISTS)?\\s+(\\S+)", t.as_str(), 1) {
            Some(g) => qualified_of_capture(g.as_str()),
            None => match crate::patterns::regex_capture("(?i)^(?:CREATE|ALTER|DROP)\\s+(?:OR\\s+REPLACE\\s+)?(?:PUBLIC\\s+)?(?:UNIQUE\\s+)?(?:MATERIALIZED\\s+VIEW|VIRTUAL\\s+TABLE|PACKAGE\\s+BODY|TYPE\\s+BODY|TABLESPACE|TABLE|VIEW|FUNCTION|PROCEDURE|INDEX|TRIGGER|TYPE|SEQUENCE|SCHEMA|DATABASE|EXTENSION|ROLE|SYNONYM|PACKAGE)(?:\\s+IF\\s+(?:NOT\\s+)?EXISTS)?\\s*(\\S+)", t.as_str(), 1) {
                Some(g) => qualified_of_capture(g.as_str()),
                None => (None, None),
            },
        },
    }
}

} // verus!
