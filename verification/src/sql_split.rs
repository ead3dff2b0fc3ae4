//! The pattern-based splitter that cuts SQL text into statements: the
//! dollar-quoted bodies that can hide statement keywords, and the cut at
//! every statement start found outside them.
use vstd::prelude::*;
use vstd::utf8::encode_utf8;
use vstd::string::StringSliceAdditionalSpecFns;
use crate::spans::{Span, byte_slice_text};
use crate::patterns::{regex_find_at, regex_find_at_spec, regex_group_starts, regex_group_starts_spec};
use crate::text::{trim_str, trim_spec, utf8_lossy_spec};
use crate::code_chunk::{CodeChunk, now_iso};
use crate::chunk_types::{CodeChunkKind, SqlFields, opt_view, copy_strings};
use crate::seqtext::views;
use crate::sql::{
    base_name, base_name_of, generate_chunk_id, in_some_span, inside_spans, infer_statement_type,
    statement_type, infer_schema_and_object_name, schema_and_object,
};

verus! {

// ---------------------------------------------------------------------------
// Byte search
// ---------------------------------------------------------------------------

/// Whether `needle` occurs in `hay` at byte `i`.
pub open spec fn bytes_at(hay: Seq<u8>, needle: Seq<u8>, i: int) -> bool {
    0 <= i && i + needle.len() <= hay.len() && hay.subrange(i, i + needle.len()) == needle
}

/// First occurrence of a non-empty `needle` in `hay` at or after byte `i`.
pub open spec fn find_bytes_from(hay: Seq<u8>, needle: Seq<u8>, i: int) -> Option<int>
    decreases hay.len() - i,
{
    if i < 0 || needle.len() == 0 || i + needle.len() > hay.len() {
        None
    } else if bytes_at(hay, needle, i) {
        Some(i)
    } else {
        find_bytes_from(hay, needle, i + 1)
    }
}

pub proof fn lemma_find_bytes_bounds(hay: Seq<u8>, needle: Seq<u8>, i: int)
    ensures
        find_bytes_from(hay, needle, i) matches Some(k) ==> i <= k && k + needle.len() <= hay.len()
            && bytes_at(hay, needle, k),
    decreases hay.len() - i,
{
    if !(i < 0 || needle.len() == 0 || i + needle.len() > hay.len()) && !bytes_at(hay, needle, i) {
        lemma_find_bytes_bounds(hay, needle, i + 1);
    }
}

/// Whether `b[ts..te]` occurs in `b` at byte `at`.
fn tag_matches_at(b: &[u8], ts: usize, te: usize, at: usize) -> (r: bool)
    requires
        ts <= te <= b@.len(),
        at + (te - ts) <= b@.len(),
    ensures
        r == bytes_at(b@, b@.subrange(ts as int, te as int), at as int),
{
    let len = te - ts;
    let blen = b.len();
    let ghost needle = b@.subrange(ts as int, te as int);
    let mut k: usize = 0;
    while k < len
        invariant
            blen == b@.len(),
            ts <= te <= b@.len(),
            len == te - ts,
            at + len <= b@.len(),
            needle == b@.subrange(ts as int, te as int),
            k <= len,
            forall|q: int| 0 <= q < k ==> b@[at + q] == needle[q],
        decreases len - k,
    {
        if b[at + k] != b[ts + k] {
            assert(b@.subrange(at as int, at + len)[k as int] != needle[k as int]);
            return false;
        }
        k += 1;
    }
    assert(b@.subrange(at as int, at + len) =~= needle);
    true
}

/// First occurrence of `b[ts..te]` in `b` at or after byte `from`.
fn find_tag(b: &[u8], ts: usize, te: usize, from: usize) -> (r: Option<usize>)
    requires
        ts <= te <= b@.len(),
    ensures
        match r {
            Some(k) => find_bytes_from(b@, b@.subrange(ts as int, te as int), from as int) == Some(k as int),
            None => find_bytes_from(b@, b@.subrange(ts as int, te as int), from as int) is None,
        },
{
    let ghost needle = b@.subrange(ts as int, te as int);
    let len = te - ts;
    if len == 0 || b.len() < len {
        return None;
    }
    let blen = b.len();
    let limit = blen - len;
    let mut i = from;
    while i <= limit
        invariant
            blen == b@.len(),
            ts <= te <= b@.len(),
            len == te - ts,
            len > 0,
            limit == b@.len() - len,
            needle == b@.subrange(ts as int, te as int),
            from <= i,
            find_bytes_from(b@, needle, i as int) == find_bytes_from(b@, needle, from as int),
        decreases limit + 1 - i,
    {
        if tag_matches_at(b, ts, te, i) {
            return Some(i);
        }
        i += 1;
    }
    None
}

// ---------------------------------------------------------------------------
// Dollar-quoted bodies
// ---------------------------------------------------------------------------

/// A dollar-quote tag such as `$$` or `$body$`.
pub open spec fn dollar_tag_pattern() -> Seq<char> {
    "\\$[A-Za-z_]*\\$"@
}

/// Where the scan resumes after a single-quoted string whose body starts
/// at byte `j`: just past its closing quote (a doubled quote stays inside
/// the string), or the end of the text.
pub open spec fn after_quoted(b: Seq<u8>, j: int) -> int
    decreases b.len() - j,
{
    if j >= b.len() {
        b.len() as int
    } else if b[j] == 39u8 && j + 1 < b.len() && b[j + 1] == 39u8 {
        after_quoted(b, j + 2)
    } else if b[j] == 39u8 {
        j + 1
    } else {
        after_quoted(b, j + 1)
    }
}

pub proof fn lemma_after_quoted_bounds(b: Seq<u8>, j: int)
    requires
        j <= b.len(),
    ensures
        j <= after_quoted(b, j) <= b.len(),
    decreases b.len() - j,
{
    if j < b.len() {
        if b[j] == 39u8 && j + 1 < b.len() && b[j + 1] == 39u8 {
            lemma_after_quoted_bounds(b, j + 2);
        } else if b[j] != 39u8 {
            lemma_after_quoted_bounds(b, j + 1);
        }
    }
}

/// The body of a dollar quote whose tag starts at byte `i`: the byte range
/// from the end of the (non-empty) tag match that begins exactly at `i` to
/// the tag's next occurrence; `None` when there is no such match or the
/// tag does not occur again.
pub open spec fn dollar_body_at(t: Seq<char>, i: int) -> Option<(int, int)> {
    let b = encode_utf8(t);
    match regex_find_at_spec(dollar_tag_pattern(), t, i as nat) {
        Some(m) => if m.0 == i && i < m.1 <= b.len() {
            match find_bytes_from(b, b.subrange(i, m.1 as int), m.1 as int) {
                Some(c) => Some((m.1 as int, c)),
                None => None,
            }
        } else {
            None
        },
        None => None,
    }
}

pub proof fn lemma_dollar_body_bounds(t: Seq<char>, i: int)
    ensures
        dollar_body_at(t, i) matches Some(sc) ==> i < sc.0 <= sc.1 && sc.1 + (sc.0 - i) <= encode_utf8(t).len(),
{
    let b = encode_utf8(t);
    if let Some(m) = regex_find_at_spec(dollar_tag_pattern(), t, i as nat) {
        if m.0 == i && i < m.1 <= b.len() {
            lemma_find_bytes_bounds(b, b.subrange(i, m.1 as int), m.1 as int);
        }
    }
}

/// The dollar-quoted bodies found scanning the text from byte `i`:
/// single-quoted strings are passed over whole, and after a body the scan
/// resumes past its closing tag.
pub open spec fn dollar_spans_from(t: Seq<char>, i: int) -> Seq<Span>
    decreases encode_utf8(t).len() - i,
{
    let b = encode_utf8(t);
    if i < 0 || i >= b.len() {
        Seq::empty()
    } else if b[i] == 39u8 {
        proof {
            lemma_after_quoted_bounds(b, i + 1);
        }
        dollar_spans_from(t, after_quoted(b, i + 1))
    } else if b[i] == 36u8 && dollar_body_at(t, i) is Some {
        let sc = dollar_body_at(t, i).unwrap();
        proof {
            lemma_dollar_body_bounds(t, i);
        }
        seq![(sc.0 as usize, sc.1 as usize)] + dollar_spans_from(t, sc.1 + (sc.0 - i))
    } else {
        dollar_spans_from(t, i + 1)
    }
}

/// The end of the single-quoted string whose body starts at byte `j`.
fn skip_quoted(b: &[u8], j: usize) -> (r: usize)
    requires
        j <= b@.len(),
    ensures
        r == after_quoted(b@, j as int),
{
    let mut k = j;
    while k < b.len()
        invariant
            k <= b@.len(),
            after_quoted(b@, k as int) == after_quoted(b@, j as int),
        decreases b.len() - k,
    {
        if b[k] == 39u8 && k + 1 < b.len() && b[k + 1] == 39u8 {
            k += 2;
        } else if b[k] == 39u8 {
            return k + 1;
        } else {
            k += 1;
        }
    }
    k
}

/// The byte ranges of the bodies of dollar-quoted strings (`$$ ... $$`,
/// `$tag$ ... $tag$`) in SQL text, outside single-quoted strings.
pub fn find_dollar_quoted_spans(text: &str) -> (r: Vec<Span>)
    ensures
        r@ == dollar_spans_from(text@, 0),
{
    let b = text.as_bytes();
    let n = b.len();
    let ghost bs = b@;
    let mut spans: Vec<Span> = Vec::new();
    let mut i: usize = 0;
    while i < n
        invariant
            bs == b@,
            bs == encode_utf8(text@),
            n == bs.len(),
            i <= n,
            spans@ + dollar_spans_from(text@, i as int) == dollar_spans_from(text@, 0),
        decreases n - i,
    {
        let ghost before = spans@;
        if b[i] == 39u8 {
            proof {
                lemma_after_quoted_bounds(bs, i + 1);
            }
            i = skip_quoted(b, i + 1);
        } else {
            let mut next = i + 1;
            if b[i] == 36u8 {
                proof {
                    lemma_dollar_body_bounds(text@, i as int);
                }
                if let Some(m) = regex_find_at("\\$[A-Za-z_]*\\$", text, i) {
                    if m.0 == i && m.1 > i {
                        if let Some(c) = find_tag(b, i, m.1, m.1) {
                            spans.push((m.1, c));
                            next = c + (m.1 - i);
                            assert(spans@ =~= before + seq![(m.1, c)]);
                        }
                    }
                }
            }
            i = next;
        }
    }
    spans
}

// ---------------------------------------------------------------------------
// Statement starts
// ---------------------------------------------------------------------------

/// A statement keyword at the start of a line (after optional whitespace);
/// group 2 is the keyword itself.
pub open spec fn statement_start_pattern() -> Seq<char> {
    "(?im)(?:^|\\n)(\\s*)((?:CREATE\\s+(?:OR\\s+REPLACE\\s+)?(?:PUBLIC\\s+)?(?:MATERIALIZED\\s+VIEW|MATERIALIZED VIEW|TABLE|VIEW|INDEX|FUNCTION|PROCEDURE|TRIGGER|TYPE\\s+BODY|TYPE|SEQUENCE|SCHEMA|DATABASE|EXTENSION|ROLE|POLICY|TABLESPACE|SYNONYM|PACKAGE\\s+BODY|PACKAGE)\\b|CREATE\\s+(?:VIRTUAL\\s+)?TABLE\\b|CREATE\\s+PROCEDURE\\S|ALTER\\s+TABLE|DROP\\s+(?:TABLE|VIEW|FUNCTION|PROCEDURE|INDEX|TYPE|SEQUENCE|EXTENSION|SCHEMA|TRIGGER)\\b|GRANT\\s|REVOKE\\s))"@
}

/// Whether byte `p` of `t` starts a statement: the pattern's keyword group
/// starts there, outside every dollar-quoted body.
pub open spec fn is_statement_start(t: Seq<char>, p: usize) -> bool {
    match regex_group_starts_spec(statement_start_pattern(), t, 2) {
        Some(starts) => starts.contains(p) && !in_some_span(p as int, dollar_spans_from(t, 0)),
        None => false,
    }
}

pub open spec fn strictly_increasing(s: Seq<usize>) -> bool {
    forall|a: int, b: int| 0 <= a < b < s.len() ==> s[a] < s[b]
}

/// Whether `s` lists the statement starts of `t` in increasing order, each
/// once.
pub open spec fn lists_starts(t: Seq<char>, s: Seq<usize>) -> bool {
    &&& strictly_increasing(s)
    &&& forall|x: usize| s.contains(x) <==> is_statement_start(t, x)
}

/// The statement starts of `t`, in increasing order, each once.
pub open spec fn statement_starts(t: Seq<char>) -> Seq<usize> {
    choose|s: Seq<usize>| #[trigger] lists_starts(t, s)
}

/// Two increasing listings of the same positions are equal.
pub proof fn lemma_listing_unique(a: Seq<usize>, b: Seq<usize>)
    requires
        strictly_increasing(a),
        strictly_increasing(b),
        forall|x: usize| a.contains(x) <==> b.contains(x),
    ensures
        a == b,
    decreases a.len() + b.len(),
{
    if a.len() == 0 {
        if b.len() > 0 {
            assert(b.contains(b[0]));
        }
        assert(b =~= a);
    } else if b.len() == 0 {
        assert(a.contains(a[0]));
    } else {
        assert(a.contains(a[0]));
        assert(b.contains(b[0]));
        let ia = choose|k: int| 0 <= k < a.len() && a[k] == b[0];
        let ib = choose|k: int| 0 <= k < b.len() && b[k] == a[0];
        assert(a[0] == b[0]) by {
            if a[0] < b[0] {
                assert(b[ib] == a[0]);
                if ib > 0 {
                    assert(b[0] < b[ib]);
                }
            } else if b[0] < a[0] {
                assert(a[ia] == b[0]);
                if ia > 0 {
                    assert(a[0] < a[ia]);
                }
            }
        }
        let a1 = a.drop_first();
        let b1 = b.drop_first();
        assert forall|x: usize| a1.contains(x) <==> b1.contains(x) by {
            if a1.contains(x) {
                let k = choose|k: int| 0 <= k < a1.len() && a1[k] == x;
                assert(a[k + 1] == x);
                assert(a.contains(x));
                let kb = choose|kb: int| 0 <= kb < b.len() && b[kb] == x;
                assert(a[0] < x);
                if kb == 0 {
                    assert(false);
                }
                assert(b1[kb - 1] == x);
            }
            if b1.contains(x) {
                let k = choose|k: int| 0 <= k < b1.len() && b1[k] == x;
                assert(b[k + 1] == x);
                assert(b.contains(x));
                let ka = choose|ka: int| 0 <= ka < a.len() && a[ka] == x;
                assert(b[0] < x);
                if ka == 0 {
                    assert(false);
                }
                assert(a1[ka - 1] == x);
            }
        }
        lemma_listing_unique(a1, b1);
        assert(a =~= seq![a[0]] + a1);
        assert(b =~= seq![b[0]] + b1);
    }
}

/// Inserts `x` into a strictly increasing vector unless it is there.
fn insert_position(v: &mut Vec<usize>, x: usize)
    requires
        strictly_increasing(old(v)@),
    ensures
        strictly_increasing(final(v)@),
        forall|y: usize| #![trigger final(v)@.contains(y)] #![trigger old(v)@.contains(y)] final(v)@.contains(y) <==> (old(v)@.contains(y) || y == x),
{
    let mut k: usize = 0;
    while k < v.len() && v[k] < x
        invariant
            k <= v.len(),
            forall|a: int| 0 <= a < k ==> v@[a] < x,
        decreases v.len() - k,
    {
        k += 1;
    }
    if k < v.len() && v[k] == x {
        assert(v@[k as int] == x);
        assert(v@.contains(x));
        return;
    }
    let ghost before = v@;
    v.insert(k, x);
    assert(v@ =~= before.take(k as int).push(x) + before.skip(k as int));
    assert forall|y: usize| #![trigger v@.contains(y)] #![trigger before.contains(y)] v@.contains(y) <==> (before.contains(y) || y == x) by {
        if v@.contains(y) {
            let j = choose|j: int| 0 <= j < v@.len() && v@[j] == y;
            if j < k {
                assert(before[j] == y);
            } else if j > k {
                assert(before[j - 1] == y);
            }
        }
        if before.contains(y) {
            let j = choose|j: int| 0 <= j < before.len() && before[j] == y;
            if j < k {
                assert(v@[j] == y);
            } else {
                assert(v@[j + 1] == y);
            }
        }
        if y == x {
            assert(v@[k as int] == x);
        }
    }
}

/// The statement starts of the trimmed text `ts`, in increasing order.
fn statement_start_list(ts: &str, spans: &Vec<Span>) -> (r: Vec<usize>)
    requires
        spans@ == dollar_spans_from(ts@, 0),
    ensures
        r@ == statement_starts(ts@),
        strictly_increasing(r@),
        forall|i: int| 0 <= i < r@.len() ==> #[trigger] r@[i] <= encode_utf8(ts@).len(),
{
    let mut ps: Vec<usize> = Vec::new();
    match regex_group_starts(
        "(?im)(?:^|\\n)(\\s*)((?:CREATE\\s+(?:OR\\s+REPLACE\\s+)?(?:PUBLIC\\s+)?(?:MATERIALIZED\\s+VIEW|MATERIALIZED VIEW|TABLE|VIEW|INDEX|FUNCTION|PROCEDURE|TRIGGER|TYPE\\s+BODY|TYPE|SEQUENCE|SCHEMA|DATABASE|EXTENSION|ROLE|POLICY|TABLESPACE|SYNONYM|PACKAGE\\s+BODY|PACKAGE)\\b|CREATE\\s+(?:VIRTUAL\\s+)?TABLE\\b|CREATE\\s+PROCEDURE\\S|ALTER\\s+TABLE|DROP\\s+(?:TABLE|VIEW|FUNCTION|PROCEDURE|INDEX|TYPE|SEQUENCE|EXTENSION|SCHEMA|TRIGGER)\\b|GRANT\\s|REVOKE\\s))",
        ts,
        2,
    ) {
        Some(starts) => {
            let mut k: usize = 0;
            while k < starts.len()
                invariant
                    k <= starts.len(),
                    regex_group_starts_spec(statement_start_pattern(), ts@, 2) == Some(starts@),
                    spans@ == dollar_spans_from(ts@, 0),
                    forall|i: int| 0 <= i < starts@.len() ==> #[trigger] starts@[i] <= encode_utf8(ts@).len(),
                    strictly_increasing(ps@),
                    forall|x: usize| #[trigger] ps@.contains(x) <==> (starts@.take(k as int).contains(x) && !in_some_span(x as int, spans@)),
                    forall|i: int| 0 <= i < ps@.len() ==> #[trigger] ps@[i] <= encode_utf8(ts@).len(),
                decreases starts.len() - k,
            {
                let p = starts[k];
                let ghost before = ps@;
                assert(starts@.take(k + 1) =~= starts@.take(k as int).push(p));
                if !inside_spans(p, spans.as_slice()) {
                    insert_position(&mut ps, p);
                    assert forall|i: int| 0 <= i < ps@.len() implies #[trigger] ps@[i] <= encode_utf8(ts@).len() by {
                        assert(ps@.contains(ps@[i]));
                        if ps@[i] != p {
                            let j = choose|j: int| 0 <= j < before.len() && before[j] == ps@[i];
                        }
                    }
                }
                assert forall|x: usize| #[trigger] ps@.contains(x) <==> (starts@.take(k + 1).contains(x) && !in_some_span(x as int, spans@)) by {
                    if starts@.take(k + 1).contains(x) && x != p {
                        let j = choose|j: int| 0 <= j < k + 1 && #[trigger] starts@.take(k + 1)[j] == x;
                        assert(starts@.take(k as int)[j] == x);
                    }
                    if starts@.take(k as int).contains(x) {
                        let j = choose|j: int| 0 <= j < k && #[trigger] starts@.take(k as int)[j] == x;
                        assert(starts@.take(k + 1)[j] == x);
                    }
                    if x == p {
                        assert(starts@.take(k + 1)[k as int] == p);
                    }
                }
                k += 1;
            }
            assert(starts@.take(starts.len() as int) =~= starts@);
        },
        None => {},
    }
    proof {
        assert(lists_starts(ts@, ps@));
        let c = statement_starts(ts@);
        assert(lists_starts(ts@, c));
        lemma_listing_unique(ps@, c);
    }
    ps
}

// ---------------------------------------------------------------------------
// Statements
// ---------------------------------------------------------------------------

/// Where the segment opened by the `k`-th start ends: at the next start, or
/// at the end of the text.
pub open spec fn segment_end(n: int, ps: Seq<usize>, k: int) -> int {
    if k + 1 < ps.len() {
        ps[k + 1] as int
    } else {
        n
    }
}

/// The trimmed text of the segment opened by the `k`-th start.
pub open spec fn segment(b: Seq<u8>, ps: Seq<usize>, k: int) -> Seq<char> {
    trim_spec(utf8_lossy_spec(b.subrange(ps[k] as int, segment_end(b.len() as int, ps, k))))
}

/// The non-blank segments opened by the first `k` starts, in order.
pub open spec fn segments_upto(b: Seq<u8>, ps: Seq<usize>, k: int) -> Seq<Seq<char>>
    decreases k,
{
    if k <= 0 {
        Seq::empty()
    } else {
        let prev = segments_upto(b, ps, k - 1);
        let s = segment(b, ps, k - 1);
        if s.len() > 0 {
            prev.push(s)
        } else {
            prev
        }
    }
}

/// The statements cut from `text`: none when the trimmed text is blank;
/// otherwise the non-blank trimmed segments from each statement start to
/// the next one (the last to the end of the text).
pub open spec fn sql_statements(text: Seq<char>) -> Seq<Seq<char>> {
    let t = trim_spec(text);
    if t.len() == 0 {
        Seq::empty()
    } else {
        let ps = statement_starts(t);
        segments_upto(encode_utf8(t), ps, ps.len() as int)
    }
}

/// The chunk made of one statement: typed and named from its text, its id
/// built from the object name (`unknown` when there is none).
pub open spec fn is_statement_chunk(
    c: CodeChunk,
    stmt: Seq<char>,
    file_path: Seq<char>,
    deps: Seq<Seq<char>>,
    database_name: Option<Seq<char>>,
) -> bool {
    let so = schema_and_object(stmt);
    let ident = match so.1 {
        Some(o) => o,
        None => "unknown"@,
    };
    &&& exists|suffix: Seq<char>| suffix.len() == 8 && c.id@ == base_name(file_path) + "-"@ + ident + "-"@ + suffix
    &&& c.repo_name@.len() == 0
    &&& c.file_name@ == base_name(file_path)
    &&& c.code@ == stmt
    &&& c.chunk_type@ == "sql_statement"@
    &&& views(c.dependencies@) == deps
    &&& c.kind matches CodeChunkKind::Sql(f) && {
        &&& opt_view(f.statement_type) == Some(statement_type(stmt))
        &&& opt_view(f.schema_name) == so.0
        &&& opt_view(f.object_name) == so.1
        &&& opt_view(f.database_name) == database_name
    }
}

fn statement_chunk(stmt: String, file_path: &str, base: &String, deps: &Vec<String>, database_name: Option<&str>) -> (c: CodeChunk)
    requires
        base@ == base_name(file_path@),
    ensures
        is_statement_chunk(c, stmt@, file_path@, views(deps@), match database_name {
            Some(d) => Some(d@),
            None => None,
        }),
{
    let statement = infer_statement_type(stmt.as_str());
    let (schema, object) = infer_schema_and_object_name(stmt.as_str());
    let ident = match &object {
        Some(o) => o.clone(),
        None => "unknown".to_owned(),
    };
    let id = generate_chunk_id(file_path, ident.as_str());
    let db = match database_name {
        Some(d) => Some(d.to_owned()),
        None => None,
    };
    CodeChunk {
        id,
        repo_name: String::new(),
        file_name: base.clone(),
        code: stmt,
        chunk_type: "sql_statement".to_owned(),
        dependencies: copy_strings(deps),
        created_at: now_iso(),
        kind: CodeChunkKind::Sql(
            SqlFields { statement_type: Some(statement), object_name: object, schema_name: schema, database_name: db },
        ),
    }
}

/// Cuts SQL text into statement chunks at every statement keyword that
/// starts a line outside a dollar-quoted body; empty when there is none.
pub fn regex_split_sql_text(text: &str, file_path: &str, deps: &Vec<String>, database_name: Option<&str>) -> (r: Vec<CodeChunk>)
    ensures
        r@.len() == sql_statements(text@).len(),
        forall|k: int| 0 <= k < r@.len() ==> is_statement_chunk(
            #[trigger] r@[k],
            sql_statements(text@)[k],
            file_path@,
            views(deps@),
            match database_name {
                Some(d) => Some(d@),
                None => None,
            },
        ),
{
    let t = trim_str(text);
    let ts = t.as_str();
    if ts.is_empty() {
        return Vec::new();
    }
    let spans = find_dollar_quoted_spans(ts);
    let ps = statement_start_list(ts, &spans);
    let b = ts.as_bytes();
    let n = b.len();
    let base = base_name_of(file_path);
    let ghost dbv = match database_name {
        Some(d) => Some(d@),
        None => None,
    };
    let mut chunks: Vec<CodeChunk> = Vec::new();
    let mut k: usize = 0;
    while k < ps.len()
        invariant
            k <= ps.len(),
            b@ == encode_utf8(ts@),
            n == b@.len(),
            strictly_increasing(ps@),
            forall|i: int| 0 <= i < ps@.len() ==> #[trigger] ps@[i] <= n,
            base@ == base_name(file_path@),
            dbv == match database_name {
                Some(d) => Some(d@),
                None => None,
            },
            chunks@.len() == segments_upto(b@, ps@, k as int).len(),
            forall|j: int| 0 <= j < chunks@.len() ==> is_statement_chunk(
                #[trigger] chunks@[j],
                segments_upto(b@, ps@, k as int)[j],
                file_path@,
                views(deps@),
                dbv,
            ),
        decreases ps.len() - k,
    {
        let end = if k + 1 < ps.len() {
            ps[k + 1]
        } else {
            n
        };
        assert(k + 1 < ps.len() ==> ps@[k as int] < ps@[k + 1]);
        let raw = byte_slice_text(b, ps[k], end);
        let seg = trim_str(raw.as_str());
        assert(seg@ == segment(b@, ps@, k as int));
        let ghost before = chunks@;
        if !seg.as_str().is_empty() {
            let c = statement_chunk(seg, file_path, &base, deps, database_name);
            chunks.push(c);
            assert(chunks@ =~= before.push(c));
        }
        k += 1;
    }
    chunks
}

} // verus!
