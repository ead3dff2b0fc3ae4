//! Source-text helpers shared by every language chunker: comment stripping
//! (generic and SQL flavoured), blank-run collapsing, byte-span merging and
//! the "file remainder" text left after every declaration was extracted.
use vstd::prelude::*;
use crate::text::{chars_of, extend_range, matches_at, occurs_at, string_of, trim_chars, trim_spec};

verus! {

// ---------------------------------------------------------------------------
// Scanner building blocks (all positions are character indices into `s`)
// ---------------------------------------------------------------------------

/// End (exclusive) of a quoted literal whose body starts at `j`.
/// `doubled`: a doubled quote (`''`) is an escaped quote;
/// `backslash`: a backslash escapes the next character.
/// An unterminated literal runs to the end of the text.
pub open spec fn quote_end(s: Seq<char>, j: int, q: char, doubled: bool, backslash: bool) -> int
    decreases s.len() - j,
{
    if j >= s.len() {
        j
    } else if doubled && s[j] == q && j + 1 < s.len() && s[j + 1] == q {
        quote_end(s, j + 2, q, doubled, backslash)
    } else if backslash && s[j] == '\\' && j + 1 < s.len() {
        quote_end(s, j + 2, q, doubled, backslash)
    } else if s[j] == q {
        j + 1
    } else {
        quote_end(s, j + 1, q, doubled, backslash)
    }
}

pub proof fn lemma_quote_end_bounds(s: Seq<char>, j: int, q: char, doubled: bool, backslash: bool)
    requires
        0 <= j <= s.len(),
    ensures
        j <= quote_end(s, j, q, doubled, backslash) <= s.len(),
    decreases s.len() - j,
{
    if j < s.len() {
        if doubled && s[j] == q && j + 1 < s.len() && s[j + 1] == q {
            lemma_quote_end_bounds(s, j + 2, q, doubled, backslash);
        } else if backslash && s[j] == '\\' && j + 1 < s.len() {
            lemma_quote_end_bounds(s, j + 2, q, doubled, backslash);
        } else if s[j] != q {
            lemma_quote_end_bounds(s, j + 1, q, doubled, backslash);
        }
    }
}

/// End of a nestable block comment whose body starts at `i` with nesting
/// `depth`; `o1 o2` opens a level, `c1 c2` closes one. An unterminated
/// comment runs to the end of the text.
pub open spec fn block_end(s: Seq<char>, i: int, depth: nat, o1: char, o2: char, c1: char, c2: char) -> int
    decreases s.len() - i,
{
    if i >= s.len() || depth == 0 {
        i
    } else if s[i] == o1 && i + 1 < s.len() && s[i + 1] == o2 {
        block_end(s, i + 2, depth + 1, o1, o2, c1, c2)
    } else if s[i] == c1 && i + 1 < s.len() && s[i + 1] == c2 {
        block_end(s, i + 2, (depth - 1) as nat, o1, o2, c1, c2)
    } else {
        block_end(s, i + 1, depth, o1, o2, c1, c2)
    }
}

pub proof fn lemma_block_end_bounds(s: Seq<char>, i: int, depth: nat, o1: char, o2: char, c1: char, c2: char)
    requires
        0 <= i <= s.len(),
    ensures
        i <= block_end(s, i, depth, o1, o2, c1, c2) <= s.len(),
    decreases s.len() - i,
{
    if i < s.len() && depth != 0 {
        if s[i] == o1 && i + 1 < s.len() && s[i + 1] == o2 {
            lemma_block_end_bounds(s, i + 2, depth + 1, o1, o2, c1, c2);
        } else if s[i] == c1 && i + 1 < s.len() && s[i + 1] == c2 {
            lemma_block_end_bounds(s, i + 2, (depth - 1) as nat, o1, o2, c1, c2);
        } else {
            lemma_block_end_bounds(s, i + 1, depth, o1, o2, c1, c2);
        }
    }
}

/// Index of the first newline at or after `i` (or the end of the text).
pub open spec fn line_end(s: Seq<char>, i: int) -> int
    decreases s.len() - i,
{
    if i >= s.len() || s[i] == '\n' {
        i
    } else {
        line_end(s, i + 1)
    }
}

pub proof fn lemma_line_end_bounds(s: Seq<char>, i: int)
    requires
        0 <= i <= s.len(),
    ensures
        i <= line_end(s, i) <= s.len(),
    decreases s.len() - i,
{
    if i < s.len() && s[i] != '\n' {
        lemma_line_end_bounds(s, i + 1);
    }
}

/// Executable `quote_end`.
fn scan_quote(s: &Vec<char>, start: usize, q: char, doubled: bool, backslash: bool) -> (j: usize)
    requires
        start <= s.len(),
    ensures
        j == quote_end(s@, start as int, q, doubled, backslash),
        start <= j <= s.len(),
{
    let mut j = start;
    proof {
        lemma_quote_end_bounds(s@, start as int, q, doubled, backslash);
    }
    while j < s.len()
        invariant
            start <= j <= s.len(),
            quote_end(s@, j as int, q, doubled, backslash) == quote_end(
                s@,
                start as int,
                q,
                doubled,
                backslash,
            ),
        decreases s.len() - j,
    {
        if doubled && s[j] == q && j + 1 < s.len() && s[j + 1] == q {
            j += 2;
        } else if backslash && s[j] == '\\' && j + 1 < s.len() {
            j += 2;
        } else if s[j] == q {
            return j + 1;
        } else {
            j += 1;
        }
    }
    j
}

/// Executable `block_end` starting at nesting depth 1.
fn scan_block(s: &Vec<char>, start: usize, o1: char, o2: char, c1: char, c2: char) -> (i: usize)
    requires
        start <= s.len(),
    ensures
        i == block_end(s@, start as int, 1, o1, o2, c1, c2),
        start <= i <= s.len(),
{
    let mut i = start;
    let mut depth: usize = 1;
    while i < s.len() && depth > 0
        invariant
            start <= i <= s.len(),
            depth <= i + 1,
            block_end(s@, i as int, depth as nat, o1, o2, c1, c2) == block_end(
                s@,
                start as int,
                1,
                o1,
                o2,
                c1,
                c2,
            ),
        decreases s.len() - i,
    {
        if s[i] == o1 && i + 1 < s.len() && s[i + 1] == o2 {
            depth += 1;
            i += 2;
        } else if s[i] == c1 && i + 1 < s.len() && s[i + 1] == c2 {
            depth -= 1;
            i += 2;
        } else {
            i += 1;
        }
    }
    i
}

/// Executable `line_end`.
pub(crate) fn scan_line(s: &Vec<char>, start: usize) -> (i: usize)
    requires
        start <= s.len(),
    ensures
        i == line_end(s@, start as int),
        start <= i <= s.len(),
{
    let mut i = start;
    while i < s.len() && s[i] != '\n'
        invariant
            start <= i <= s.len(),
            line_end(s@, i as int) == line_end(s@, start as int),
        decreases s.len() - i,
    {
        i += 1;
    }
    i
}

// ---------------------------------------------------------------------------
// Blank-run collapsing
// ---------------------------------------------------------------------------

/// Left-to-right fold that keeps at most two consecutive newlines: the
/// output so far and the length of the current newline run.
pub open spec fn collapse_state(s: Seq<char>) -> (Seq<char>, nat)
    decreases s.len(),
{
    if s.len() == 0 {
        (Seq::empty(), 0)
    } else {
        let (o, b) = collapse_state(s.drop_last());
        let c = s.last();
        if c == '\n' {
            if b + 1 <= 2 {
                (o.push(c), b + 1)
            } else {
                (o, b + 1)
            }
        } else {
            (o.push(c), 0)
        }
    }
}

/// `s` with every run of three or more newlines shortened to two.
pub open spec fn collapse_newlines(s: Seq<char>) -> Seq<char> {
    collapse_state(s).0
}

/// Collapse newline runs to at most two, then trim surrounding whitespace.
pub open spec fn collapse_blank_runs_spec(s: Seq<char>) -> Seq<char> {
    trim_spec(collapse_newlines(s))
}

/// Executable `collapse_newlines` over a character vector.
pub fn collapse_newline_runs(v: &Vec<char>) -> (r: Vec<char>)
    ensures
        r@ == collapse_newlines(v@),
{
    let mut out: Vec<char> = Vec::new();
    let mut blanks: usize = 0;
    let mut i: usize = 0;
    while i < v.len()
        invariant
            i <= v.len(),
            blanks <= i,
            collapse_state(v@.take(i as int)) == (out@, blanks as nat),
        decreases v.len() - i,
    {
        let ch = v[i];
        assert(v@.take(i + 1).drop_last() == v@.take(i as int));
        if ch == '\n' {
            blanks += 1;
            if blanks <= 2 {
                out.push(ch);
            }
        } else {
            blanks = 0;
            out.push(ch);
        }
        i += 1;
    }
    assert(v@.take(v.len() as int) == v@);
    out
}

/// Collapse runs of three or more newlines to two, then trim.
pub fn collapse_blank_runs(s: &str) -> (r: String)
    ensures
        r@ == collapse_blank_runs_spec(s@),
{
    let v = chars_of(s);
    let c = collapse_newline_runs(&v);
    let t = trim_chars(&c);
    string_of(&t)
}

/// Whether `s` holds three consecutive newlines somewhere.
pub open spec fn has_triple_newline(s: Seq<char>) -> bool {
    exists|k: int| 0 <= k && k + 2 < s.len() && #[trigger] s[k] == '\n' && s[k + 1] == '\n' && s[k + 2] == '\n'
}

/// Number of newlines at the end of `s`.
pub open spec fn trailing_newlines(s: Seq<char>) -> nat
    decreases s.len(),
{
    if s.len() > 0 && s.last() == '\n' {
        1 + trailing_newlines(s.drop_last())
    } else {
        0
    }
}

proof fn lemma_collapse_state_shape(s: Seq<char>)
    ensures
        !has_triple_newline(collapse_state(s).0),
        trailing_newlines(collapse_state(s).0) == if collapse_state(s).1 <= 2 {
            collapse_state(s).1
        } else {
            2
        },
    decreases s.len(),
{
    if s.len() > 0 {
        lemma_collapse_state_shape(s.drop_last());
        let (o, b) = collapse_state(s.drop_last());
        let c = s.last();
        if c == '\n' {
            if b + 1 <= 2 {
                let o2 = o.push(c);
                assert(o2.drop_last() == o);
                assert forall|k: int| 0 <= k && k + 2 < o2.len() && #[trigger] o2[k] == '\n' && o2[k + 1] == '\n' implies o2[k + 2] != '\n' by {
                    if k + 2 < o.len() {
                        assert(o[k] == o2[k] && o[k + 1] == o2[k + 1] && o[k + 2] == o2[k + 2]);
                    } else {
                        // k + 2 is the pushed newline: o ends with o[k], o[k+1]
                        assert(k + 2 == o.len());
                        lemma_trailing_two(o);
                    }
                }
            }
        } else {
            let o2 = o.push(c);
            assert(o2.drop_last() == o);
            assert forall|k: int| 0 <= k && k + 2 < o2.len() && #[trigger] o2[k] == '\n' && o2[k + 1] == '\n' implies o2[k + 2] != '\n' by {
                if k + 2 < o.len() {
                    assert(o[k] == o2[k] && o[k + 1] == o2[k + 1] && o[k + 2] == o2[k + 2]);
                }
            }
        }
    }
}

/// If `o` ends in two newlines, it ends in at least two trailing newlines.
proof fn lemma_trailing_two(o: Seq<char>)
    requires
        o.len() >= 2,
        o[o.len() - 2] == '\n',
        o[o.len() - 1] == '\n',
    ensures
        trailing_newlines(o) >= 2,
{
    let d = o.drop_last();
    assert(d.last() == '\n');
    assert(trailing_newlines(o) == 1 + trailing_newlines(d));
    assert(trailing_newlines(d) == 1 + trailing_newlines(d.drop_last()));
}

/// Law: after collapsing, no run of three newlines remains.
pub proof fn lemma_collapse_no_triple_newline(s: Seq<char>)
    ensures
        !has_triple_newline(collapse_newlines(s)),
{
    lemma_collapse_state_shape(s);
}

// ---------------------------------------------------------------------------
// Comment stripping
// ---------------------------------------------------------------------------

/// The generic comment scanner from position `i`: literals delimited by
/// `'`, `"` or `` ` `` are copied verbatim; `/* */` and `(* *)` comments
/// (nestable) become one newline; `//`, `--` and `#` comments are dropped
/// up to (not including) the end of their line.
pub open spec fn scan_comments(s: Seq<char>, i: int) -> Seq<char>
    recommends
        0 <= i <= s.len(),
    decreases s.len() - i,
{
    if i < 0 || i >= s.len() {
        Seq::empty()
    } else {
        let c = s[i];
        let next_is = |d: char| i + 1 < s.len() && s[i + 1] == d;
        if c == '\'' || c == '"' || c == '`' {
            let j = quote_end(s, i + 1, c, c == '\'', true);
            proof {
                lemma_quote_end_bounds(s, i + 1, c, c == '\'', true);
            }
            s.subrange(i, j) + scan_comments(s, j)
        } else if c == '/' && next_is('*') {
            let j = block_end(s, i + 2, 1, '/', '*', '*', '/');
            proof {
                lemma_block_end_bounds(s, i + 2, 1, '/', '*', '*', '/');
            }
            seq!['\n'] + scan_comments(s, j)
        } else if c == '(' && next_is('*') {
            let j = block_end(s, i + 2, 1, '(', '*', '*', ')');
            proof {
                lemma_block_end_bounds(s, i + 2, 1, '(', '*', '*', ')');
            }
            seq!['\n'] + scan_comments(s, j)
        } else if (c == '/' && next_is('/')) || (c == '-' && next_is('-')) {
            let j = line_end(s, i + 2);
            proof {
                lemma_line_end_bounds(s, i + 2);
            }
            scan_comments(s, j)
        } else if c == '#' {
            let j = line_end(s, i + 1);
            proof {
                lemma_line_end_bounds(s, i + 1);
            }
            scan_comments(s, j)
        } else {
            seq![c] + scan_comments(s, i + 1)
        }
    }
}

/// What `strip_comments` returns for `text`.
pub open spec fn strip_comments_spec(text: Seq<char>) -> Seq<char> {
    collapse_blank_runs_spec(scan_comments(text, 0))
}

/// Text with nothing the comment scanner acts on: no quote, backtick or
/// `#`, and none of `/*`, `//`, `(*`, `--`.
pub open spec fn comment_free(s: Seq<char>) -> bool {
    &&& forall|k: int| 0 <= k < s.len() ==> #[trigger] s[k] != '\'' && s[k] != '"' && s[k] != '`' && s[k] != '#'
    &&& forall|k: int| 0 <= k && k + 1 < s.len() ==> !((#[trigger] s[k] == '/' && (s[k + 1] == '*' || s[k + 1] == '/'))
        || (s[k] == '(' && s[k + 1] == '*') || (s[k] == '-' && s[k + 1] == '-'))
}

proof fn lemma_scan_comment_free(s: Seq<char>, i: int)
    requires
        comment_free(s),
        0 <= i <= s.len(),
    ensures
        scan_comments(s, i) == s.skip(i),
    decreases s.len() - i,
{
    if i < s.len() {
        lemma_scan_comment_free(s, i + 1);
        assert(s[i] != '\'' && s[i] != '"' && s[i] != '`' && s[i] != '#');
        if i + 1 < s.len() {
            assert(!((s[i] == '/' && (s[i + 1] == '*' || s[i + 1] == '/')) || (s[i] == '(' && s[i + 1] == '*') || (s[i] == '-' && s[i + 1] == '-')));
        }
        assert(s.skip(i) =~= seq![s[i]] + s.skip(i + 1));
    } else {
        assert(s.skip(i) =~= Seq::<char>::empty());
    }
}

proof fn lemma_collapse_identity(s: Seq<char>)
    requires
        !has_triple_newline(s),
    ensures
        collapse_state(s).0 == s,
        collapse_state(s).1 == trailing_newlines(s),
        trailing_newlines(s) <= 2,
    decreases s.len(),
{
    if s.len() > 0 {
        let d = s.drop_last();
        assert(!has_triple_newline(d)) by {
            if has_triple_newline(d) {
                let k = choose|k: int| 0 <= k && k + 2 < d.len() && #[trigger] d[k] == '\n' && d[k + 1] == '\n' && d[k + 2] == '\n';
                assert(s[k] == d[k] && s[k + 1] == d[k + 1] && s[k + 2] == d[k + 2]);
            }
        }
        lemma_collapse_identity(d);
        assert(d.push(s.last()) =~= s);
        if s.last() == '\n' && trailing_newlines(d) == 2 {
            let dd = d.drop_last();
            reveal_with_fuel(trailing_newlines, 2);
            assert(d.len() > 0 && d.last() == '\n');
            assert(trailing_newlines(dd) == 1);
            assert(dd.len() > 0 && dd.last() == '\n');
            let k = s.len() - 3;
            assert(s[k] == dd.last());
            assert(s[k + 1] == d.last());
            assert(s[k] == '\n' && s[k + 1] == '\n' && s[k + 2] == '\n');
            assert(has_triple_newline(s));
        }
    }
}

/// Law: what comment stripping returns holds no run of three newlines and
/// is its own trim; text the scanner has nothing to act on, with no run of
/// three newlines, comes back just trimmed.
pub proof fn lemma_strip_comments_laws(text: Seq<char>)
    ensures
        !has_triple_newline(strip_comments_spec(text)),
        trim_spec(strip_comments_spec(text)) == strip_comments_spec(text),
        comment_free(text) && !has_triple_newline(text) ==> strip_comments_spec(text) == trim_spec(text),
{
    let c = collapse_newlines(scan_comments(text, 0));
    lemma_collapse_no_triple_newline(scan_comments(text, 0));
    crate::text::lemma_trim_idempotent(c);
    crate::text::lemma_trim_start_index_bounds(c);
    let i = crate::text::trim_start_index(c);
    let v = c.skip(i);
    crate::text::lemma_trim_end_index_bounds(v);
    let u = v.take(crate::text::trim_end_index(v));
    assert(trim_spec(c) == u);
    assert(!has_triple_newline(u)) by {
        if has_triple_newline(u) {
            let k = choose|k: int| 0 <= k && k + 2 < u.len() && #[trigger] u[k] == '\n' && u[k + 1] == '\n' && u[k + 2] == '\n';
            assert(c[i + k] == u[k] && c[i + k + 1] == u[k + 1] && c[i + k + 2] == u[k + 2]);
            assert(has_triple_newline(c));
        }
    }
    if comment_free(text) && !has_triple_newline(text) {
        lemma_scan_comment_free(text, 0);
        assert(text.skip(0) =~= text);
        lemma_collapse_identity(text);
    }
}

/// Strip `//`, `/* */`, `--`, `#` and `(* *)` comments while keeping
/// single-, double- and backtick-quoted literals verbatim, then collapse
/// blank runs and trim.
pub fn strip_comments(text: &str) -> (r: String)
    ensures
        r@ == strip_comments_spec(text@),
{
    let chars = chars_of(text);
    let ghost s = chars@;
    let mut out: Vec<char> = Vec::new();
    let mut i: usize = 0;
    while i < chars.len()
        invariant
            i <= chars.len(),
            s == chars@,
            out@ + scan_comments(s, i as int) == scan_comments(s, 0),
        decreases chars.len() - i,
    {
        let c = chars[i];
        let next_star = i + 1 < chars.len() && chars[i + 1] == '*';
        let next_slash = i + 1 < chars.len() && chars[i + 1] == '/';
        let next_dash = i + 1 < chars.len() && chars[i + 1] == '-';
        if c == '\'' || c == '"' || c == '`' {
            let j = scan_quote(&chars, i + 1, c, c == '\'', true);
            let ghost before = out@;
            extend_range(&mut out, &chars, i, j);
            assert(out@ + scan_comments(s, j as int) == before + scan_comments(s, i as int));
            i = j;
        } else if c == '/' && next_star {
            let j = scan_block(&chars, i + 2, '/', '*', '*', '/');
            let ghost before = out@;
            out.push('\n');
            assert(out@ + scan_comments(s, j as int) == before + scan_comments(s, i as int));
            i = j;
        } else if c == '(' && next_star {
            let j = scan_block(&chars, i + 2, '(', '*', '*', ')');
            let ghost before = out@;
            out.push('\n');
            assert(out@ + scan_comments(s, j as int) == before + scan_comments(s, i as int));
            i = j;
        } else if (c == '/' && next_slash) || (c == '-' && next_dash) {
            let j = scan_line(&chars, i + 2);
            i = j;
        } else if c == '#' {
            let j = scan_line(&chars, i + 1);
            i = j;
        } else {
            let ghost before = out@;
            out.push(c);
            assert(out@ + scan_comments(s, i + 1) == before + scan_comments(s, i as int));
            i += 1;
        }
    }
    assert(out@ == scan_comments(s, 0));
    let collapsed = collapse_newline_runs(&out);
    let trimmed = trim_chars(&collapsed);
    string_of(&trimmed)
}

// ---------------------------------------------------------------------------
// SQL comment stripping
// ---------------------------------------------------------------------------

/// ASCII letter test (`char::is_ascii_alphabetic`).
pub open spec fn is_ascii_alpha(c: char) -> bool {
    ('a' <= c && c <= 'z') || ('A' <= c && c <= 'Z')
}

/// ASCII digit test (`char::is_ascii_digit`).
pub open spec fn is_ascii_digit(c: char) -> bool {
    '0' <= c && c <= '9'
}

/// Character after which a dollar-quote tag (`$tag$`) closes: scanning from
/// `j`, the index one past the closing `$`, if only letters and `_` precede it.
pub open spec fn dollar_tag_end(s: Seq<char>, j: int) -> Option<int>
    decreases s.len() - j,
{
    if j < 0 || j >= s.len() {
        None
    } else if s[j] == '$' {
        Some(j + 1)
    } else if !is_ascii_alpha(s[j]) && s[j] != '_' {
        None
    } else {
        dollar_tag_end(s, j + 1)
    }
}

/// Length of the dollar-quote tag (`$$` or `$name$`) starting at `i`.
pub open spec fn match_dollar_tag_spec(s: Seq<char>, i: int) -> Option<int> {
    if 0 <= i < s.len() && s[i] == '$' {
        match dollar_tag_end(s, i + 1) {
            Some(e) => Some(e - i),
            None => None,
        }
    } else {
        None
    }
}

pub proof fn lemma_dollar_tag_end_bounds(s: Seq<char>, j: int)
    requires
        0 <= j,
    ensures
        dollar_tag_end(s, j) matches Some(e) ==> j < e <= s.len() && s[e - 1] == '$',
    decreases s.len() - j,
{
    if 0 <= j < s.len() && s[j] != '$' && (is_ascii_alpha(s[j]) || s[j] == '_') {
        lemma_dollar_tag_end_bounds(s, j + 1);
    }
}

/// Matches an opening dollar-quote tag at `i`; returns its length.
pub fn match_dollar_tag(chars: &Vec<char>, i: usize) -> (r: Option<usize>)
    ensures
        r matches Some(l) ==> match_dollar_tag_spec(chars@, i as int) == Some(l as int),
        r is None ==> match_dollar_tag_spec(chars@, i as int) is None,
{
    if i >= chars.len() || chars[i] != '$' {
        return None;
    }
    let mut j = i + 1;
    let len = chars.len();
    while j < len
        invariant
            i < j <= len,
            len == chars.len(),
            chars@[i as int] == '$',
            dollar_tag_end(chars@, j as int) == dollar_tag_end(chars@, i + 1),
        decreases len - j,
    {
        let c = chars[j];
        if c == '$' {
            return Some(j - i + 1);
        }
        if !(('a' <= c && c <= 'z') || ('A' <= c && c <= 'Z')) && c != '_' {
            return None;
        }
        j += 1;
    }
    None
}

/// First index `k >= i` at which `needle` occurs in `hay` (searching from `i`).
pub open spec fn find_from(hay: Seq<char>, needle: Seq<char>, i: int) -> Option<int>
    decreases hay.len() - i,
{
    if i < 0 || needle.len() == 0 || i + needle.len() > hay.len() {
        None
    } else if occurs_at(hay, needle, i) {
        Some(i)
    } else {
        find_from(hay, needle, i + 1)
    }
}

pub proof fn lemma_find_from_bounds(hay: Seq<char>, needle: Seq<char>, i: int)
    ensures
        find_from(hay, needle, i) matches Some(k) ==> i <= k && occurs_at(hay, needle, k),
    decreases hay.len() - i,
{
    if !(i < 0 || needle.len() == 0 || i + needle.len() > hay.len()) && !occurs_at(hay, needle, i) {
        lemma_find_from_bounds(hay, needle, i + 1);
    }
}

/// First occurrence of a non-empty `needle` in `haystack` at or after `from`.
pub fn find_subseq(haystack: &Vec<char>, needle: &Vec<char>, from: usize) -> (r: Option<usize>)
    ensures
        r matches Some(k) ==> find_from(haystack@, needle@, from as int) == Some(k as int),
        r is None ==> find_from(haystack@, needle@, from as int) is None,
{
    if needle.len() == 0 || haystack.len() < needle.len() {
        return None;
    }
    let limit = haystack.len() - needle.len();
    let mut i = from;
    while i <= limit
        invariant
            from <= i,
            limit == haystack.len() - needle.len(),
            needle.len() > 0,
            find_from(haystack@, needle@, i as int) == find_from(haystack@, needle@, from as int),
        decreases limit + 1 - i,
    {
        if matches_at(haystack, needle, i) {
            return Some(i);
        }
        i += 1;
    }
    None
}

/// The SQL comment scanner from position `i`: dollar-quoted bodies and
/// quoted strings/identifiers are copied verbatim (an unterminated dollar
/// quote keeps the rest of the text); nestable `/* */` comments become one
/// newline; `--` comments are dropped up to the end of their line.
pub open spec fn scan_sql(s: Seq<char>, i: int) -> Seq<char>
    decreases s.len() - i,
{
    if i < 0 || i >= s.len() {
        Seq::empty()
    } else {
        let c = s[i];
        let next_is = |d: char| i + 1 < s.len() && s[i + 1] == d;
        let tag = if c == '$' && i + 1 < s.len() {
            match_dollar_tag_spec(s, i)
        } else {
            None
        };
        if tag is Some {
            let tl = tag->0;
            proof {
                lemma_dollar_tag_end_bounds(s, i + 1);
            }
            match find_from(s, s.subrange(i, i + tl), i + tl) {
                Some(close) => {
                    proof {
                        lemma_find_from_bounds(s, s.subrange(i, i + tl), i + tl);
                    }
                    s.subrange(i, close + tl) + scan_sql(s, close + tl)
                },
                None => s.subrange(i, s.len() as int),
            }
        } else if c == '\'' || c == '"' {
            let j = quote_end(s, i + 1, c, true, false);
            proof {
                lemma_quote_end_bounds(s, i + 1, c, true, false);
            }
            s.subrange(i, j) + scan_sql(s, j)
        } else if c == '/' && next_is('*') {
            let j = block_end(s, i + 2, 1, '/', '*', '*', '/');
            proof {
                lemma_block_end_bounds(s, i + 2, 1, '/', '*', '*', '/');
            }
            seq!['\n'] + scan_sql(s, j)
        } else if c == '-' && next_is('-') {
            let j = line_end(s, i + 2);
            proof {
                lemma_line_end_bounds(s, i + 2);
            }
            scan_sql(s, j)
        } else {
            seq![c] + scan_sql(s, i + 1)
        }
    }
}

/// What `strip_sql_comments` returns for `text`.
pub open spec fn strip_sql_comments_spec(text: Seq<char>) -> Seq<char> {
    collapse_blank_runs_spec(scan_sql(text, 0))
}

/// Strip SQL `--` and `/* */` comments while preserving dollar-quoted
/// bodies and quoted strings/identifiers, then collapse blank runs and trim.
pub fn strip_sql_comments(text: &str) -> (r: String)
    ensures
        r@ == strip_sql_comments_spec(text@),
{
    let chars = chars_of(text);
    let ghost s = chars@;
    let mut out: Vec<char> = Vec::new();
    let mut i: usize = 0;
    while i < chars.len()
        invariant
            i <= chars.len(),
            s == chars@,
            s == text@,
            out@ + scan_sql(s, i as int) == scan_sql(s, 0),
        decreases chars.len() - i,
    {
        let c = chars[i];
        if c == '$' && i + 1 < chars.len() {
            if let Some(tag_len) = match_dollar_tag(&chars, i) {
                proof {
                    lemma_dollar_tag_end_bounds(s, i + 1);
                }
                let mut tag: Vec<char> = Vec::new();
                extend_range(&mut tag, &chars, i, i + tag_len);
                let body_start = i + tag_len;
                let ghost before = out@;
                match find_subseq(&chars, &tag, body_start) {
                    Some(close) => {
                        proof {
                            lemma_find_from_bounds(s, tag@, body_start as int);
                        }
                        extend_range(&mut out, &chars, i, close + tag_len);
                        assert(out@ + scan_sql(s, close + tag_len) == before + scan_sql(
                            s,
                            i as int,
                        ));
                        i = close + tag_len;
                        continue ;
                    },
                    None => {
                        extend_range(&mut out, &chars, i, chars.len());
                        assert(out@ == before + scan_sql(s, i as int));
                        assert(out@ == scan_sql(s, 0));
                        let collapsed = collapse_newline_runs(&out);
                        let trimmed = trim_chars(&collapsed);
                        return string_of(&trimmed);
                    },
                }
            }
        }
        let next_star = i + 1 < chars.len() && chars[i + 1] == '*';
        let next_dash = i + 1 < chars.len() && chars[i + 1] == '-';
        if c == '\'' || c == '"' {
            let j = scan_quote(&chars, i + 1, c, true, false);
            let ghost before = out@;
            extend_range(&mut out, &chars, i, j);
            assert(out@ + scan_sql(s, j as int) == before + scan_sql(s, i as int));
            i = j;
        } else if c == '/' && next_star {
            let j = scan_block(&chars, i + 2, '/', '*', '*', '/');
            let ghost before = out@;
            out.push('\n');
            assert(out@ + scan_sql(s, j as int) == before + scan_sql(s, i as int));
            i = j;
        } else if c == '-' && next_dash {
            let j = scan_line(&chars, i + 2);
            i = j;
        } else {
            let ghost before = out@;
            out.push(c);
            assert(out@ + scan_sql(s, i + 1) == before + scan_sql(s, i as int));
            i += 1;
        }
    }
    assert(out@ == scan_sql(s, 0));
    let collapsed = collapse_newline_runs(&out);
    let trimmed = trim_chars(&collapsed);
    string_of(&trimmed)
}

// ---------------------------------------------------------------------------
// Import sources
// ---------------------------------------------------------------------------

/// A JavaScript string delimiter: `'`, `"` or a backtick.
pub open spec fn is_js_quote(c: char) -> bool {
    c == '\'' || c == '"' || c == '`'
}

/// An import source with its surrounding quotes removed, when it starts
/// and ends with the same quote character.
pub open spec fn unquoted_source(s: Seq<char>) -> Seq<char> {
    if s.len() >= 2 && is_js_quote(s[0]) && s.last() == s[0] {
        s.subrange(1, s.len() - 1)
    } else {
        s
    }
}

/// Strips the quotes around a JavaScript import source (`"foo"` to `foo`).
pub fn strip_js_import_source(value: &str) -> (r: String)
    ensures
        r@ == unquoted_source(value@),
{
    let v = chars_of(value);
    let n = v.len();
    if n >= 2 {
        let first = v[0];
        if (first == '\'' || first == '"' || first == '`') && v[n - 1] == first {
            return crate::text::string_of_range(&v, 1, n - 1);
        }
    }
    string_of(&v)
}

} // verus!
