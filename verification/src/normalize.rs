//! Code-text normalization applied to every chunk: per-line trailing
//! whitespace removal, blank-run collapsing, tab expansion and dedenting.
use vstd::prelude::*;
use crate::text::{is_ws, chars_of, extend_all, extend_range, string_of, trim_end_chars, trim_end_spec, trim_spec, trim_chars};
use crate::chunk_helpers::{collapse_newline_runs, collapse_newlines};
use crate::seqtext::{join, join_chars, split_newline_chars, split_newlines, vviews};

verus! {

// ---------------------------------------------------------------------------
// normalize_code
// ---------------------------------------------------------------------------

/// The lines of `s` as `str::split_inclusive('\n')` yields them, without
/// their newline.
pub open spec fn inclusive_lines(s: Seq<char>) -> Seq<Seq<char>> {
    let p = split_newlines(s);
    if s.len() == 0 {
        Seq::empty()
    } else if s.last() == '\n' {
        p.drop_last()
    } else {
        p
    }
}

/// Each line of `s` with trailing whitespace removed, joined by `\n`.
pub open spec fn trimmed_lines_joined(s: Seq<char>) -> Seq<char> {
    let l = inclusive_lines(s);
    join(Seq::new(l.len(), |i: int| trim_end_spec(l[i])), seq!['\n'])
}

/// Whether `s` consists of newlines only (`trim_matches('\n').is_empty()`).
pub open spec fn all_newlines(s: Seq<char>) -> bool {
    forall|k: int| 0 <= k < s.len() ==> s[k] == '\n'
}

/// What `normalize_code` returns: trailing whitespace stripped per line,
/// runs of three or more newlines shortened to two, and a lone `\n` when
/// nothing but newlines is left.
pub open spec fn normalize_code_spec(s: Seq<char>) -> Seq<char> {
    let out = collapse_newlines(trimmed_lines_joined(s));
    if all_newlines(out) {
        seq!['\n']
    } else {
        out
    }
}

/// The lines of `v` (split-inclusive, newline removed), each trimmed at the end.
fn trimmed_lines(v: &Vec<char>) -> (r: Vec<Vec<char>>)
    ensures
        vviews(r@) == Seq::new(
            inclusive_lines(v@).len(),
            |i: int| trim_end_spec(inclusive_lines(v@)[i]),
        ),
{
    let pieces = split_newline_chars(v);
    proof {
        lemma_split_nonempty(v@);
        assert(vviews(pieces@).len() == pieces@.len());
    }
    let n = if v.len() == 0 {
        0
    } else if v[v.len() - 1] == '\n' {
        pieces.len() - 1
    } else {
        pieces.len()
    };
    let ghost l = inclusive_lines(v@);
    assert(l.len() == n);
    assert forall|k: int| 0 <= k < n implies l[k] == (#[trigger] pieces@[k])@ by {
        assert(vviews(pieces@)[k] == pieces@[k]@);
    }
    let mut r: Vec<Vec<char>> = Vec::new();
    let mut i: usize = 0;
    while i < n
        invariant
            i <= n <= pieces.len(),
            l == inclusive_lines(v@),
            l.len() == n,
            forall|k: int| 0 <= k < n ==> l[k] == (#[trigger] pieces@[k])@,
            vviews(r@) == Seq::new(i as nat, |k: int| trim_end_spec(l[k])),
        decreases n - i,
    {
        let t = trim_end_chars(&pieces[i]);
        assert(t@ == trim_end_spec(l[i as int]));
        let ghost before = vviews(r@);
        r.push(t);
        assert(vviews(r@) =~= before.push(t@));
        i += 1;
        assert(vviews(r@) =~= Seq::new(i as nat, |k: int| trim_end_spec(l[k])));
    }
    r
}

proof fn lemma_split_from_nonempty(s: Seq<char>, i: int)
    requires
        0 <= i <= s.len(),
    ensures
        split_from_len_ok(s, i),
    decreases s.len() - i,
{
    crate::chunk_helpers::lemma_line_end_bounds(s, i);
    let e = crate::chunk_helpers::line_end(s, i);
    if e < s.len() {
        lemma_split_from_nonempty(s, e + 1);
    }
}

spec fn split_from_len_ok(s: Seq<char>, i: int) -> bool {
    crate::seqtext::split_from(s, i).len() >= 1
}

pub proof fn lemma_split_nonempty(s: Seq<char>)
    ensures
        split_newlines(s).len() >= 1,
{
    lemma_split_from_nonempty(s, 0);
}

/// No line of `s` (split on `\n`) ends in whitespace: a whitespace
/// character other than `\n` is always followed by a character that is not
/// `\n`.
pub open spec fn line_ends_trimmed(s: Seq<char>) -> bool {
    forall|k: int|
        0 <= k < s.len() && s[k] != '\n' && is_ws(#[trigger] s[k]) ==> k + 1 < s.len() && s[k + 1]
            != '\n'
}

spec fn no_newline(s: Seq<char>) -> bool {
    forall|k: int| 0 <= k < s.len() ==> #[trigger] s[k] != '\n'
}

spec fn no_ws_before_newline(s: Seq<char>) -> bool {
    forall|k: int|
        0 <= k && k + 1 < s.len() && s[k] != '\n' && is_ws(#[trigger] s[k]) ==> s[k + 1] != '\n'
}

proof fn lemma_line_end_no_newline(s: Seq<char>, i: int)
    requires
        0 <= i <= s.len(),
    ensures
        forall|k: int| i <= k < crate::chunk_helpers::line_end(s, i) ==> #[trigger] s[k] != '\n',
        0 <= crate::chunk_helpers::line_end(s, i) < s.len() ==> s[crate::chunk_helpers::line_end(
            s,
            i,
        )] == '\n',
    decreases s.len() - i,
{
    if i < s.len() && s[i] != '\n' {
        lemma_line_end_no_newline(s, i + 1);
    }
}

proof fn lemma_split_from_no_newline(s: Seq<char>, i: int)
    requires
        0 <= i <= s.len(),
    ensures
        forall|j: int|
            0 <= j < crate::seqtext::split_from(s, i).len() ==> no_newline(
                #[trigger] crate::seqtext::split_from(s, i)[j],
            ),
    decreases s.len() - i,
{
    let e = crate::chunk_helpers::line_end(s, i);
    crate::chunk_helpers::lemma_line_end_bounds(s, i);
    lemma_line_end_no_newline(s, i);
    let p = crate::seqtext::split_from(s, i);
    if e >= s.len() {
        assert(no_newline(s.subrange(i, s.len() as int)));
    } else {
        lemma_split_from_no_newline(s, e + 1);
        let rest = crate::seqtext::split_from(s, e + 1);
        assert(p == seq![s.subrange(i, e)] + rest);
        assert(no_newline(s.subrange(i, e)));
        assert forall|j: int| 0 <= j < p.len() implies no_newline(#[trigger] p[j]) by {
            if j > 0 {
                assert(p[j] == rest[j - 1]);
            }
        }
    }
}

/// The trimmed lines of `code`: none holds a newline, and none ends in
/// whitespace.
proof fn lemma_trimmed_lines_shape(code: Seq<char>)
    ensures
        forall|j: int|
            0 <= j < inclusive_lines(code).len() ==> {
                let t = #[trigger] trim_end_spec(inclusive_lines(code)[j]);
                no_newline(t) && (t.len() > 0 ==> !is_ws(t.last()))
            },
{
    let p = split_newlines(code);
    lemma_split_from_no_newline(code, 0);
    let l = inclusive_lines(code);
    assert forall|j: int| 0 <= j < l.len() implies {
        let t = #[trigger] trim_end_spec(l[j]);
        no_newline(t) && (t.len() > 0 ==> !is_ws(t.last()))
    } by {
        assert(l[j] == p[j]);
        assert(no_newline(p[j]));
        crate::text::lemma_trim_end_index_bounds(l[j]);
        let t = trim_end_spec(l[j]);
        assert forall|k: int| 0 <= k < t.len() implies #[trigger] t[k] != '\n' by {
            assert(t[k] == l[j][k]);
        }
    }
}

/// Joining lines that hold no newline and do not end in whitespace gives
/// text whose lines do not end in whitespace.
proof fn lemma_join_lines_trimmed(t: Seq<Seq<char>>)
    requires
        forall|j: int|
            0 <= j < t.len() ==> no_newline(#[trigger] t[j]) && (t[j].len() > 0 ==> !is_ws(
                t[j].last(),
            )),
    ensures
        line_ends_trimmed(join(t, seq!['\n'])),
    decreases t.len(),
{
    let nl = seq!['\n'];
    if t.len() == 1 {
        let a = t[0];
        assert(join(t, nl) == a);
        assert forall|k: int| 0 <= k < a.len() && a[k] != '\n' && is_ws(#[trigger] a[k]) implies k
            + 1 < a.len() && a[k + 1] != '\n' by {
            if k + 1 == a.len() {
                assert(a.last() == a[k]);
            }
        }
    } else if t.len() > 1 {
        let d = t.drop_last();
        assert forall|j: int| 0 <= j < d.len() implies no_newline(#[trigger] d[j]) && (d[j].len()
            > 0 ==> !is_ws(d[j].last())) by {
            assert(d[j] == t[j]);
        }
        lemma_join_lines_trimmed(d);
        let a = join(d, nl);
        let b = t.last();
        let s = join(t, nl);
        assert(s == a + nl + b);
        assert(no_newline(b));
        assert forall|k: int| 0 <= k < s.len() && s[k] != '\n' && is_ws(#[trigger] s[k]) implies k
            + 1 < s.len() && s[k + 1] != '\n' by {
            if k < a.len() {
                assert(s[k] == a[k]);
                if k + 1 < a.len() {
                    assert(s[k + 1] == a[k + 1]);
                } else {
                    assert(a[k] != '\n' && is_ws(a[k]));
                }
            } else if k == a.len() {
                assert(s[k] == '\n');
            } else {
                let m = k - a.len() - 1;
                assert(s[k] == b[m]);
                if m + 1 < b.len() {
                    assert(s[k + 1] == b[m + 1]);
                } else {
                    assert(b.last() == b[m]);
                }
            }
        }
    }
}

/// Collapsing newline runs keeps the last character and never puts a
/// newline right after whitespace.
proof fn lemma_collapse_keeps_line_ends(s: Seq<char>)
    ensures
        no_ws_before_newline(s) ==> no_ws_before_newline(collapse_newlines(s)),
        s.len() > 0 ==> collapse_newlines(s).len() > 0 && collapse_newlines(s).last() == s.last(),
        crate::chunk_helpers::collapse_state(s).1 > 0 ==> s.len() > 0 && s.last() == '\n',
    decreases s.len(),
{
    if s.len() > 0 {
        let d = s.drop_last();
        lemma_collapse_keeps_line_ends(d);
        let (o, b) = crate::chunk_helpers::collapse_state(d);
        let c = s.last();
        if no_ws_before_newline(s) {
            assert forall|k: int|
                0 <= k && k + 1 < d.len() && d[k] != '\n' && is_ws(#[trigger] d[k]) implies d[k + 1]
                != '\n' by {
                assert(d[k] == s[k] && d[k + 1] == s[k + 1]);
            }
            let r = collapse_newlines(s);
            assert forall|k: int|
                0 <= k && k + 1 < r.len() && r[k] != '\n' && is_ws(#[trigger] r[k]) implies r[k + 1]
                != '\n' by {
                if r.len() == o.len() + 1 {
                    assert(r == o.push(c));
                    if k + 1 < o.len() {
                        assert(r[k] == o[k] && r[k + 1] == o[k + 1]);
                    } else {
                        assert(r[k] == o.last());
                        assert(d.len() > 0);
                        assert(o.last() == d.last());
                        assert(d.last() == s[s.len() - 2]);
                    }
                } else {
                    assert(r == o);
                }
            }
        }
        if c == '\n' && b + 1 > 2 {
            assert(d.len() > 0 && d.last() == '\n');
        }
    }
}

/// Whether every character of `s` is whitespace.
pub open spec fn all_ws(s: Seq<char>) -> bool {
    forall|k: int| 0 <= k < s.len() ==> is_ws(#[trigger] s[k])
}

/// The text from `i` is all whitespace exactly when every piece of
/// `split_from(s, i)` is.
proof fn lemma_split_from_all_ws(s: Seq<char>, i: int)
    requires
        0 <= i <= s.len(),
    ensures
        (forall|k: int| i <= k < s.len() ==> is_ws(#[trigger] s[k])) <==> (forall|j: int|
            0 <= j < crate::seqtext::split_from(s, i).len() ==> all_ws(
                #[trigger] crate::seqtext::split_from(s, i)[j],
            )),
    decreases s.len() - i,
{
    let e = crate::chunk_helpers::line_end(s, i);
    crate::chunk_helpers::lemma_line_end_bounds(s, i);
    lemma_line_end_no_newline(s, i);
    let p = crate::seqtext::split_from(s, i);
    if e >= s.len() {
        let a = s.subrange(i, s.len() as int);
        assert(p == seq![a]);
        if forall|k: int| i <= k < s.len() ==> is_ws(#[trigger] s[k]) {
            assert forall|m: int| 0 <= m < a.len() implies is_ws(#[trigger] a[m]) by {
                assert(a[m] == s[i + m]);
            }
        }
        if all_ws(p[0]) {
            assert forall|k: int| i <= k < s.len() implies is_ws(#[trigger] s[k]) by {
                assert(s[k] == a[k - i]);
            }
        }
    } else {
        lemma_split_from_all_ws(s, e + 1);
        let a = s.subrange(i, e);
        let rest = crate::seqtext::split_from(s, e + 1);
        assert(p == seq![a] + rest);
        assert(s[e] == '\n');
        if forall|k: int| i <= k < s.len() ==> is_ws(#[trigger] s[k]) {
            assert forall|m: int| 0 <= m < a.len() implies is_ws(#[trigger] a[m]) by {
                assert(a[m] == s[i + m]);
            }
            assert forall|j: int| 0 <= j < p.len() implies all_ws(#[trigger] p[j]) by {
                if j > 0 {
                    assert(p[j] == rest[j - 1]);
                }
            }
        }
        if forall|j: int| 0 <= j < p.len() ==> all_ws(#[trigger] p[j]) {
            assert(all_ws(p[0]));
            assert forall|j: int| 0 <= j < rest.len() implies all_ws(#[trigger] rest[j]) by {
                assert(rest[j] == p[j + 1]);
            }
            assert forall|k: int| i <= k < s.len() implies is_ws(#[trigger] s[k]) by {
                if k < e {
                    assert(s[k] == a[k - i]);
                }
            }
        }
    }
}

/// When `s` ends in a newline, the last piece of `split_from(s, i)` is
/// empty.
proof fn lemma_split_from_last_empty(s: Seq<char>, i: int)
    requires
        0 <= i <= s.len(),
        s.len() > 0,
        s.last() == '\n',
    ensures
        crate::seqtext::split_from(s, i).len() > 0,
        crate::seqtext::split_from(s, i).last().len() == 0,
    decreases s.len() - i,
{
    let e = crate::chunk_helpers::line_end(s, i);
    crate::chunk_helpers::lemma_line_end_bounds(s, i);
    lemma_line_end_no_newline(s, i);
    let p = crate::seqtext::split_from(s, i);
    if e >= s.len() {
        if i < s.len() {
            assert(s[s.len() - 1] != '\n');
        }
        assert(p == seq![s.subrange(i, s.len() as int)]);
    } else {
        lemma_split_from_last_empty(s, e + 1);
        let rest = crate::seqtext::split_from(s, e + 1);
        assert(p == seq![s.subrange(i, e)] + rest);
        assert(p.last() == rest.last());
    }
}

/// Joined lines are all newlines exactly when every line is.
proof fn lemma_join_all_newlines(t: Seq<Seq<char>>)
    ensures
        all_newlines(join(t, seq!['\n'])) <==> (forall|j: int|
            0 <= j < t.len() ==> all_newlines(#[trigger] t[j])),
    decreases t.len(),
{
    let nl = seq!['\n'];
    if t.len() > 1 {
        let d = t.drop_last();
        lemma_join_all_newlines(d);
        let a = join(d, nl);
        let b = t.last();
        let s = join(t, nl);
        assert(s == a + nl + b);
        if all_newlines(s) {
            assert forall|k: int| 0 <= k < a.len() implies a[k] == '\n' by {
                assert(s[k] == a[k]);
            }
            assert forall|k: int| 0 <= k < b.len() implies b[k] == '\n' by {
                assert(s[a.len() + 1 + k] == b[k]);
            }
            assert forall|j: int| 0 <= j < t.len() implies all_newlines(#[trigger] t[j]) by {
                if j < d.len() {
                    assert(t[j] == d[j]);
                }
            }
        }
        if forall|j: int| 0 <= j < t.len() ==> all_newlines(#[trigger] t[j]) {
            assert forall|j: int| 0 <= j < d.len() implies all_newlines(#[trigger] d[j]) by {
                assert(d[j] == t[j]);
            }
            assert(all_newlines(t[t.len() - 1]));
            assert forall|k: int| 0 <= k < s.len() implies s[k] == '\n' by {
                if k < a.len() {
                    assert(s[k] == a[k]);
                } else if k > a.len() {
                    assert(s[k] == b[k - a.len() - 1]);
                }
            }
        }
    } else if t.len() == 1 {
        assert(join(t, nl) == t[0]);
    }
}

/// Collapsing newline runs leaves text all newlines exactly when it was.
proof fn lemma_collapse_all_newlines(s: Seq<char>)
    ensures
        all_newlines(collapse_newlines(s)) <==> all_newlines(s),
    decreases s.len(),
{
    if s.len() > 0 {
        let d = s.drop_last();
        lemma_collapse_all_newlines(d);
        let (o, b) = crate::chunk_helpers::collapse_state(d);
        let c = s.last();
        let r = collapse_newlines(s);
        if c == '\n' {
            if all_newlines(s) {
                assert forall|k: int| 0 <= k < d.len() implies d[k] == '\n' by {
                    assert(d[k] == s[k]);
                }
            }
            if all_newlines(d) {
                assert forall|k: int| 0 <= k < s.len() implies s[k] == '\n' by {
                    if k < d.len() {
                        assert(d[k] == s[k]);
                    }
                }
            }
            if r.len() == o.len() + 1 {
                assert(r == o.push(c));
                if all_newlines(r) {
                    assert forall|k: int| 0 <= k < o.len() implies o[k] == '\n' by {
                        assert(r[k] == o[k]);
                    }
                }
            } else {
                assert(r == o);
            }
        } else {
            assert(r == o.push(c));
            assert(r[r.len() - 1] == c);
            assert(s[s.len() - 1] == c);
        }
    }
}

/// A line trims to nothing exactly when it is all whitespace.
proof fn lemma_trim_end_empty(l: Seq<char>)
    ensures
        (trim_end_spec(l).len() == 0) <==> all_ws(l),
{
    crate::text::lemma_trim_end_index_bounds(l);
}

/// The lines of `ls` that are not empty, in order.
pub open spec fn nonempty_lines(ls: Seq<Seq<char>>) -> Seq<Seq<char>>
    decreases ls.len(),
{
    if ls.len() == 0 {
        Seq::empty()
    } else if ls.last().len() > 0 {
        nonempty_lines(ls.drop_last()).push(ls.last())
    } else {
        nonempty_lines(ls.drop_last())
    }
}

/// The lines of `ls` that hold a character other than whitespace, in order,
/// each without its trailing whitespace.
pub open spec fn nonblank_trimmed(ls: Seq<Seq<char>>) -> Seq<Seq<char>>
    decreases ls.len(),
{
    if ls.len() == 0 {
        Seq::empty()
    } else if !all_ws(ls.last()) {
        nonblank_trimmed(ls.drop_last()).push(trim_end_spec(ls.last()))
    } else {
        nonblank_trimmed(ls.drop_last())
    }
}

proof fn lemma_line_end_push(x: Seq<char>, c: char, i: int)
    requires
        0 <= i <= x.len(),
    ensures
        crate::chunk_helpers::line_end(x.push(c), i) == if crate::chunk_helpers::line_end(x, i)
            < x.len() {
            crate::chunk_helpers::line_end(x, i)
        } else if c == '\n' {
            x.len() as int
        } else {
            x.len() + 1int
        },
    decreases x.len() - i,
{
    let y = x.push(c);
    if i < x.len() {
        assert(y[i] == x[i]);
        if x[i] != '\n' {
            lemma_line_end_push(x, c, i + 1);
        }
    } else {
        assert(y[i] == c);
        if c != '\n' {
            assert(crate::chunk_helpers::line_end(y, i + 1) == i + 1);
        }
    }
}

/// Pushing a character onto text: a newline opens a new empty line, any
/// other character extends the last line.
proof fn lemma_split_from_push(x: Seq<char>, c: char, i: int)
    requires
        0 <= i <= x.len(),
    ensures
        crate::seqtext::split_from(x, i).len() >= 1,
        c == '\n' ==> crate::seqtext::split_from(x.push(c), i) == crate::seqtext::split_from(
            x,
            i,
        ).push(Seq::<char>::empty()),
        c != '\n' ==> crate::seqtext::split_from(x.push(c), i) == crate::seqtext::split_from(
            x,
            i,
        ).drop_last().push(crate::seqtext::split_from(x, i).last().push(c)),
    decreases x.len() - i,
{
    let y = x.push(c);
    let e = crate::chunk_helpers::line_end(x, i);
    crate::chunk_helpers::lemma_line_end_bounds(x, i);
    lemma_line_end_push(x, c, i);
    lemma_split_from_nonempty(x, i);
    let p = crate::seqtext::split_from(x, i);
    let q = crate::seqtext::split_from(y, i);
    if e >= x.len() {
        assert(p == seq![x.subrange(i, x.len() as int)]);
        if c == '\n' {
            assert(y[x.len() as int] == '\n');
            let tail = crate::seqtext::split_from(y, y.len() as int);
            assert(crate::chunk_helpers::line_end(y, y.len() as int) == y.len());
            assert(tail == seq![y.subrange(y.len() as int, y.len() as int)]);
            assert(q == seq![y.subrange(i, x.len() as int)] + tail);
            assert(y.subrange(i, x.len() as int) == x.subrange(i, x.len() as int));
            assert(y.subrange(y.len() as int, y.len() as int) =~= Seq::<char>::empty());
            assert(q =~= p.push(Seq::<char>::empty()));
        } else {
            assert(q == seq![y.subrange(i, y.len() as int)]);
            assert(y.subrange(i, y.len() as int) =~= x.subrange(i, x.len() as int).push(c));
            assert(q =~= p.drop_last().push(p.last().push(c)));
        }
    } else {
        lemma_split_from_push(x, c, e + 1);
        let rp = crate::seqtext::split_from(x, e + 1);
        let rq = crate::seqtext::split_from(y, e + 1);
        assert(p == seq![x.subrange(i, e)] + rp);
        assert(q == seq![y.subrange(i, e)] + rq);
        assert(y.subrange(i, e) == x.subrange(i, e));
        if c == '\n' {
            assert(q =~= p.push(Seq::<char>::empty()));
        } else {
            assert(p.last() == rp.last());
            assert(q =~= p.drop_last().push(p.last().push(c)));
        }
    }
}

/// Appending text without a newline extends the last line.
proof fn lemma_split_append(x: Seq<char>, b: Seq<char>)
    requires
        no_newline(b),
    ensures
        split_newlines(x + b) == split_newlines(x).drop_last().push(split_newlines(x).last() + b),
    decreases b.len(),
{
    lemma_split_from_push(x, 'a', 0);
    if b.len() == 0 {
        assert(x + b == x);
        assert(split_newlines(x).last() + b == split_newlines(x).last());
        assert(split_newlines(x).drop_last().push(split_newlines(x).last()) =~= split_newlines(x));
    } else {
        let b2 = b.drop_last();
        let c = b.last();
        assert(no_newline(b2));
        lemma_split_append(x, b2);
        assert(x + b == (x + b2).push(c));
        lemma_split_from_push(x + b2, c, 0);
        assert(c != '\n');
        let p = split_newlines(x);
        assert(p.last() + b == (p.last() + b2).push(c));
        let q = p.drop_last().push(p.last() + b2);
        assert(q.drop_last() =~= p.drop_last());
    }
}

/// Splitting joined lines that hold no newline gives the lines back.
proof fn lemma_split_join(t: Seq<Seq<char>>)
    requires
        t.len() >= 1,
        forall|j: int| 0 <= j < t.len() ==> no_newline(#[trigger] t[j]),
    ensures
        split_newlines(join(t, seq!['\n'])) == t,
    decreases t.len(),
{
    let e = Seq::<char>::empty();
    assert(crate::chunk_helpers::line_end(e, 0) == 0);
    assert(split_newlines(e) == seq![e.subrange(0, 0)]);
    if t.len() == 1 {
        assert(no_newline(t[0]));
        lemma_split_append(e, t[0]);
        assert(e + t[0] == t[0]);
        assert(join(t, seq!['\n']) == t[0]);
        assert(split_newlines(e).drop_last().push(e + t[0]) =~= t);
    } else {
        let d = t.drop_last();
        assert forall|j: int| 0 <= j < d.len() implies no_newline(#[trigger] d[j]) by {
            assert(d[j] == t[j]);
        }
        lemma_split_join(d);
        let a = join(d, seq!['\n']);
        let b = t.last();
        assert(no_newline(t[t.len() - 1]));
        lemma_split_from_push(a, '\n', 0);
        let x = a.push('\n');
        assert(a + seq!['\n'] + b == x + b);
        lemma_split_append(x, b);
        assert(split_newlines(x) == d.push(e));
        assert(d.push(e).drop_last() =~= d);
        assert(e + b == b);
        assert(d.push(b) =~= t);
    }
}

proof fn lemma_nonempty_lines_last(ls: Seq<Seq<char>>)
    requires
        ls.len() >= 1,
    ensures
        nonempty_lines(ls) == if ls.last().len() > 0 {
            nonempty_lines(ls.drop_last()).push(ls.last())
        } else {
            nonempty_lines(ls.drop_last())
        },
{
}

/// Collapsing newline runs keeps the non-empty lines and whether the text
/// ends in an empty line.
proof fn lemma_collapse_nonempty_lines(s: Seq<char>)
    ensures
        nonempty_lines(split_newlines(collapse_newlines(s))) == nonempty_lines(split_newlines(s)),
        split_newlines(collapse_newlines(s)).last().len() == 0 <==> split_newlines(s).last().len()
            == 0,
    decreases s.len(),
{
    lemma_split_nonempty(s);
    lemma_split_nonempty(collapse_newlines(s));
    if s.len() > 0 {
        let d = s.drop_last();
        let c = s.last();
        lemma_collapse_nonempty_lines(d);
        let (o, b) = crate::chunk_helpers::collapse_state(d);
        let r = collapse_newlines(s);
        assert(s == d.push(c));
        lemma_split_from_push(d, c, 0);
        lemma_split_from_push(o, c, 0);
        let p = split_newlines(d);
        let q = split_newlines(o);
        assert(collapse_newlines(d) == o);
        assert(nonempty_lines(q) == nonempty_lines(p));
        if c == '\n' {
            let e = Seq::<char>::empty();
            assert(p.push(e).drop_last() =~= p);
            assert(q.push(e).drop_last() =~= q);
            lemma_nonempty_lines_last(p.push(e));
            lemma_nonempty_lines_last(q.push(e));
            assert(split_newlines(s) == p.push(e));
            assert(nonempty_lines(p.push(e)) == nonempty_lines(p));
            assert(nonempty_lines(q.push(e)) == nonempty_lines(q));
            if r.len() == o.len() + 1 {
                assert(r == o.push(c));
                assert(split_newlines(r) == q.push(e));
            } else {
                assert(r == o);
                lemma_collapse_keeps_line_ends(d);
                assert(b > 0);
                assert(d.len() > 0 && d.last() == '\n');
                lemma_split_from_push(d.drop_last(), '\n', 0);
                assert(d.drop_last().push('\n') == d);
                lemma_nonempty_lines_last(p);
                assert(p.last().len() == 0);
                assert(p.drop_last() == split_newlines(d.drop_last()));
            }
        } else {
            assert(r == o.push(c));
            let p2 = p.drop_last().push(p.last().push(c));
            let q2 = q.drop_last().push(q.last().push(c));
            assert(p2.drop_last() =~= p.drop_last());
            assert(q2.drop_last() =~= q.drop_last());
            lemma_nonempty_lines_last(p2);
            lemma_nonempty_lines_last(q2);
            lemma_nonempty_lines_last(p);
            lemma_nonempty_lines_last(q);
            if p.last().len() > 0 {
                assert(nonempty_lines(p) == nonempty_lines(p.drop_last()).push(p.last()));
                assert(nonempty_lines(q) == nonempty_lines(q.drop_last()).push(q.last()));
                assert(nonempty_lines(p).drop_last() =~= nonempty_lines(p.drop_last()));
                assert(nonempty_lines(q).drop_last() =~= nonempty_lines(q.drop_last()));
                assert(nonempty_lines(p).last() == p.last());
                assert(nonempty_lines(q).last() == q.last());
            } else {
                assert(p.last() =~= q.last());
            }
            assert(p.last().push(c).len() > 0);
            assert(nonempty_lines(p2) == nonempty_lines(p.drop_last()).push(p.last().push(c)));
            assert(nonempty_lines(q2) == nonempty_lines(q.drop_last()).push(q.last().push(c)));
            assert(split_newlines(s) == p2);
            assert(split_newlines(r) == q2);
            assert(nonempty_lines(p.drop_last()) == nonempty_lines(q.drop_last()));
            assert(nonempty_lines(q2) == nonempty_lines(p2));
        }
    } else {
        assert(collapse_newlines(s) =~= s);
    }
}

/// Trimming each line and keeping the non-empty ones equals keeping the
/// non-blank lines and trimming them.
proof fn lemma_nonempty_trimmed(l: Seq<Seq<char>>)
    ensures
        nonempty_lines(Seq::new(l.len(), |i: int| trim_end_spec(l[i]))) == nonblank_trimmed(l),
    decreases l.len(),
{
    if l.len() > 0 {
        let d = l.drop_last();
        lemma_nonempty_trimmed(d);
        let t = Seq::new(l.len(), |i: int| trim_end_spec(l[i]));
        assert(t.drop_last() =~= Seq::new(d.len(), |i: int| trim_end_spec(d[i])));
        lemma_trim_end_empty(l.last());
        assert(t.last() == trim_end_spec(l.last()));
    }
}

/// Text made of newlines only has no non-empty line.
proof fn lemma_all_newlines_no_lines(x: Seq<char>)
    requires
        all_newlines(x),
    ensures
        nonempty_lines(split_newlines(x)) == Seq::<Seq<char>>::empty(),
    decreases x.len(),
{
    let e = Seq::<char>::empty();
    if x.len() == 0 {
        assert(x =~= e);
        assert(crate::chunk_helpers::line_end(e, 0) == 0);
        assert(split_newlines(e) == seq![e.subrange(0, 0)]);
        assert(split_newlines(e).drop_last() =~= Seq::<Seq<char>>::empty());
        lemma_nonempty_lines_last(split_newlines(e));
        assert(split_newlines(x) == split_newlines(e));
    } else {
        let d = x.drop_last();
        assert forall|k: int| 0 <= k < d.len() implies d[k] == '\n' by {
            assert(d[k] == x[k]);
        }
        lemma_all_newlines_no_lines(d);
        assert(x == d.push('\n'));
        lemma_split_from_push(d, '\n', 0);
        assert(split_newlines(d).push(e).drop_last() =~= split_newlines(d));
        lemma_nonempty_lines_last(split_newlines(d).push(e));
    }
}

/// Law: the non-blank lines of the code come out in order, each without its
/// trailing whitespace, as the non-empty lines of the normalized code (whose
/// lines all end trimmed, so these are its non-blank lines).
pub proof fn lemma_normalize_code_keeps_lines(code: Seq<char>)
    ensures
        nonempty_lines(split_newlines(normalize_code_spec(code))) == nonblank_trimmed(
            split_newlines(code),
        ),
{
    let l = inclusive_lines(code);
    let t = Seq::new(l.len(), |i: int| trim_end_spec(l[i]));
    let jn = trimmed_lines_joined(code);
    let out = collapse_newlines(jn);
    let p = split_newlines(code);
    let e = Seq::<char>::empty();
    lemma_trimmed_lines_shape(code);
    lemma_nonempty_trimmed(l);
    lemma_split_nonempty(code);
    // The dropped final piece is empty, so it is not a non-blank line.
    if code.len() == 0 {
        assert(crate::chunk_helpers::line_end(code, 0) == 0);
        assert(p == seq![code.subrange(0, 0)]);
        assert(l =~= p.drop_last());
    } else if code.last() == '\n' {
        lemma_split_from_last_empty(code, 0);
    } else {
        assert(l == p);
    }
    if l != p {
        assert(l =~= p.drop_last());
        assert(all_ws(p.last()));
    }
    assert(nonblank_trimmed(l) == nonblank_trimmed(p));
    // Splitting the joined trimmed lines gives them back; collapsing keeps
    // the non-empty ones.
    if t.len() >= 1 {
        assert forall|j: int| 0 <= j < t.len() implies no_newline(#[trigger] t[j]) by {
            assert(t[j] == trim_end_spec(l[j]));
        }
        lemma_split_join(t);
        assert(jn == join(t, seq!['\n']));
        lemma_collapse_nonempty_lines(jn);
    } else {
        assert(jn =~= e);
        assert(out =~= e);
        lemma_all_newlines_no_lines(out);
        assert(t =~= Seq::<Seq<char>>::empty());
    }
    assert(nonempty_lines(split_newlines(out)) == nonblank_trimmed(p));
    if all_newlines(out) {
        lemma_all_newlines_no_lines(out);
        lemma_all_newlines_no_lines(seq!['\n']);
    }
}

/// Law: normalized code is never empty, holds no run of three newlines,
/// and none of its lines (split on `\n`) ends in whitespace.
pub proof fn lemma_normalize_code_laws(code: Seq<char>)
    ensures
        normalize_code_spec(code).len() > 0,
        !crate::chunk_helpers::has_triple_newline(normalize_code_spec(code)),
        line_ends_trimmed(normalize_code_spec(code)),
        normalize_code_spec(code) == seq!['\n'] <==> (forall|k: int|
            0 <= k < code.len() ==> is_ws(#[trigger] code[k])),
{
    let out = collapse_newlines(trimmed_lines_joined(code));
    crate::chunk_helpers::lemma_collapse_no_triple_newline(trimmed_lines_joined(code));
    let l = inclusive_lines(code);
    let t = Seq::new(l.len(), |i: int| trim_end_spec(l[i]));
    lemma_trimmed_lines_shape(code);
    assert forall|j: int| 0 <= j < t.len() implies no_newline(#[trigger] t[j]) && (t[j].len() > 0
        ==> !is_ws(t[j].last())) by {
        assert(t[j] == trim_end_spec(l[j]));
    }
    lemma_join_lines_trimmed(t);
    let jn = trimmed_lines_joined(code);
    assert(jn == join(t, seq!['\n']));
    lemma_collapse_keeps_line_ends(jn);
    assert(no_ws_before_newline(jn));
    assert forall|k: int| 0 <= k < out.len() && out[k] != '\n' && is_ws(#[trigger] out[k]) implies k
        + 1 < out.len() && out[k + 1] != '\n' by {
        if k + 1 == out.len() {
            assert(out.last() == jn.last());
            assert(jn[jn.len() - 1] == jn.last());
        }
    }
    lemma_collapse_all_newlines(jn);
    lemma_join_all_newlines(t);
    let p = split_newlines(code);
    lemma_split_from_all_ws(code, 0);
    assert forall|j: int| 0 <= j < t.len() implies (all_newlines(#[trigger] t[j]) <==> all_ws(
        l[j],
    )) by {
        assert(t[j] == trim_end_spec(l[j]));
        lemma_trim_end_empty(l[j]);
        if all_newlines(t[j]) && t[j].len() > 0 {
            assert(no_newline(t[j]));
            assert(t[j][0] == '\n');
        }
    }
    lemma_split_nonempty(code);
    if code.len() > 0 && code.last() == '\n' {
        lemma_split_from_last_empty(code, 0);
    }
    assert forall|j: int| 0 <= j < p.len() && j >= l.len() implies all_ws(#[trigger] p[j]) by {
        assert(j == p.len() - 1);
        if code.len() == 0 {
            assert(p == seq![code.subrange(0, 0)]);
        }
    }
    assert((forall|j: int| 0 <= j < t.len() ==> all_newlines(#[trigger] t[j])) <==> (forall|j: int|
        0 <= j < p.len() ==> all_ws(#[trigger] p[j]))) by {
        if forall|j: int| 0 <= j < t.len() ==> all_newlines(#[trigger] t[j]) {
            assert forall|j: int| 0 <= j < p.len() implies all_ws(#[trigger] p[j]) by {
                if j < l.len() {
                    assert(all_newlines(t[j]));
                    assert(l[j] == p[j]);
                }
            }
        }
        if forall|j: int| 0 <= j < p.len() ==> all_ws(#[trigger] p[j]) {
            assert forall|j: int| 0 <= j < t.len() implies all_newlines(#[trigger] t[j]) by {
                assert(l[j] == p[j]);
                assert(all_ws(p[j]));
            }
        }
    }
    if all_newlines(out) {
        let r = seq!['\n'];
        assert(r.len() == 1);
        assert(!crate::chunk_helpers::has_triple_newline(r));
    } else {
        assert(out.len() > 0);
    }
}

/// Normalize code: strip trailing whitespace per line and collapse three or
/// more newlines into two.
pub fn normalize_code(code: &str) -> (r: String)
    ensures
        r@ == normalize_code_spec(code@),
{
    let v = chars_of(code);
    let lines = trimmed_lines(&v);
    let nl: Vec<char> = vec!['\n'];
    let joined = join_chars(&lines, &nl);
    assert(vviews(lines@) == Seq::new(
        inclusive_lines(v@).len(),
        |i: int| trim_end_spec(inclusive_lines(v@)[i]),
    ));
    assert(nl@ == seq!['\n']);
    let out = collapse_newline_runs(&joined);
    let mut only_nl = true;
    let mut k: usize = 0;
    while k < out.len()
        invariant
            k <= out.len(),
            only_nl == (forall|m: int| 0 <= m < k ==> out@[m] == '\n'),
        decreases out.len() - k,
    {
        if out[k] != '\n' {
            only_nl = false;
        }
        k += 1;
    }
    if only_nl {
        let one: Vec<char> = vec!['\n'];
        return string_of(&one);
    }
    string_of(&out)
}

/// Each line with its trailing whitespace removed, the lines joined by `\n`
/// (a final newline is dropped).
pub fn trim_line_ends(s: &str) -> (r: String)
    ensures
        r@ == trimmed_lines_joined(s@),
{
    let v = chars_of(s);
    let lines = trimmed_lines(&v);
    let nl: Vec<char> = vec!['\n'];
    let joined = join_chars(&lines, &nl);
    assert(nl@ == seq!['\n']);
    string_of(&joined)
}

/// Collapse runs of three or more newlines into two (no trimming).
pub fn collapse_blank_lines(s: &str) -> (r: String)
    ensures
        r@ == collapse_newlines(s@),
{
    let v = chars_of(s);
    let c = collapse_newline_runs(&v);
    string_of(&c)
}

// ---------------------------------------------------------------------------
// expand_tabs
// ---------------------------------------------------------------------------

/// Left fold of `str::expandtabs`: output so far and the current column.
pub open spec fn expand_state(s: Seq<char>, tabsize: nat) -> (Seq<char>, nat)
    decreases s.len(),
{
    if s.len() == 0 {
        (Seq::empty(), 0)
    } else {
        let (o, col) = expand_state(s.drop_last(), tabsize);
        let c = s.last();
        if c == '\t' {
            let spaces = (tabsize - (col % tabsize)) as nat;
            (o + Seq::new(spaces, |_i: int| ' '), col + spaces)
        } else if c == '\n' {
            (o.push(c), 0)
        } else {
            (o.push(c), col + 1)
        }
    }
}

/// Tabs replaced by spaces up to the next multiple of `tabsize` columns.
pub open spec fn expand_tabs_spec(s: Seq<char>, tabsize: nat) -> Seq<char> {
    expand_state(s, tabsize).0
}

proof fn lemma_expand_col_bound(s: Seq<char>, tabsize: nat)
    requires
        tabsize > 0,
    ensures
        expand_state(s, tabsize).1 <= s.len() * tabsize,
    decreases s.len(),
{
    if s.len() > 0 {
        lemma_expand_col_bound(s.drop_last(), tabsize);
        let (o, col) = expand_state(s.drop_last(), tabsize);
        assert(col % tabsize < tabsize) by (nonlinear_arith)
            requires
                tabsize > 0,
        ;
        assert((s.len() - 1) * tabsize + tabsize == s.len() * tabsize) by (nonlinear_arith);
    }
}

/// Expand tabs to the next multiple of `tabsize` columns.
pub fn expand_tabs(s: &str, tabsize: usize) -> (r: String)
    requires
        tabsize > 0,
        (s@.len() + 1) * tabsize <= usize::MAX,
    ensures
        r@ == expand_tabs_spec(s@, tabsize as nat),
{
    let v = chars_of(s);
    let mut out: Vec<char> = Vec::new();
    let mut col: usize = 0;
    let mut i: usize = 0;
    while i < v.len()
        invariant
            i <= v.len(),
            v@ == s@,
            tabsize > 0,
            (v@.len() + 1) * tabsize <= usize::MAX,
            expand_state(v@.take(i as int), tabsize as nat) == (out@, col as nat),
        decreases v.len() - i,
    {
        let ch = v[i];
        assert(v@.take(i + 1).drop_last() == v@.take(i as int));
        proof {
            lemma_expand_col_bound(v@.take(i as int), tabsize as nat);
            assert((i + 1) * tabsize <= (v@.len() + 1) * tabsize) by (nonlinear_arith)
                requires
                    i + 1 <= v@.len() + 1,
            ;
            assert(i * tabsize + tabsize == (i + 1) * tabsize) by (nonlinear_arith);
            assert(col % tabsize < tabsize) by (nonlinear_arith)
                requires
                    tabsize > 0,
            ;
        }
        if ch == '\t' {
            let spaces = tabsize - (col % tabsize);
            let ghost before = out@;
            let mut k: usize = 0;
            while k < spaces
                invariant
                    k <= spaces,
                    out@ == before + Seq::new(k as nat, |_i: int| ' '),
                decreases spaces - k,
            {
                out.push(' ');
                k += 1;
                assert(out@ =~= before + Seq::new(k as nat, |_i: int| ' '));
            }
            col += spaces;
        } else {
            out.push(ch);
            if ch == '\n' {
                col = 0;
            } else {
                col += 1;
            }
        }
        i += 1;
    }
    assert(v@.take(v.len() as int) == v@);
    string_of(&out)
}

// ---------------------------------------------------------------------------
// dedent
// ---------------------------------------------------------------------------

/// `x` without one trailing carriage return.
pub open spec fn strip_cr(x: Seq<char>) -> Seq<char> {
    if x.len() > 0 && x.last() == '\r' {
        x.drop_last()
    } else {
        x
    }
}

/// A line that is empty after trimming.
pub open spec fn is_blank(x: Seq<char>) -> bool {
    trim_spec(x).len() == 0
}

/// Number of leading spaces and tabs of `x`.
pub open spec fn indent_of(x: Seq<char>) -> nat
    decreases x.len(),
{
    if x.len() > 0 && (x[0] == ' ' || x[0] == '\t') {
        1 + indent_of(x.drop_first())
    } else {
        0
    }
}

/// Smallest indentation among the non-blank pieces of `p`, if any.
pub open spec fn margin_of(p: Seq<Seq<char>>) -> Option<nat>
    decreases p.len(),
{
    if p.len() == 0 {
        None
    } else {
        let m = margin_of(p.drop_last());
        let raw = strip_cr(p.last());
        if is_blank(raw) {
            m
        } else {
            match m {
                None => Some(indent_of(raw)),
                Some(k) => Some(if k <= indent_of(raw) { k } else { indent_of(raw) }),
            }
        }
    }
}

/// One dedented line: blank lines shrink to their newline; other lines lose
/// their first `m` characters (carriage return dropped).
pub open spec fn dedent_line(piece: Seq<char>, has_nl: bool, m: nat) -> Seq<char> {
    let raw = strip_cr(piece);
    let nl: Seq<char> = if has_nl { seq!['\n'] } else { Seq::empty() };
    if is_blank(raw) {
        nl
    } else if m >= raw.len() {
        nl
    } else {
        raw.skip(m as int) + nl
    }
}

/// Concatenation of the first `k` dedented pieces of `p`.
pub open spec fn dedent_concat(p: Seq<Seq<char>>, k: int, m: nat) -> Seq<char>
    decreases k,
{
    if k <= 0 {
        Seq::empty()
    } else {
        dedent_concat(p, k - 1, m) + dedent_line(p[k - 1], k - 1 < p.len() - 1, m)
    }
}

/// What `dedent` returns: the common leading indentation of the non-blank
/// lines removed (`textwrap.dedent`).
pub open spec fn dedent_spec(s: Seq<char>) -> Seq<char> {
    let p = split_newlines(s);
    match margin_of(p) {
        None => s,
        Some(m) => if m == 0 {
            s
        } else {
            dedent_concat(p, p.len() as int, m)
        },
    }
}

fn strip_cr_chars(x: &Vec<char>) -> (r: Vec<char>)
    ensures
        r@ == strip_cr(x@),
{
    let mut r: Vec<char> = Vec::new();
    if x.len() > 0 && x[x.len() - 1] == '\r' {
        extend_range(&mut r, x, 0, x.len() - 1);
    } else {
        extend_all(&mut r, x);
    }
    r
}

fn indent_count(x: &Vec<char>) -> (n: usize)
    ensures
        n == indent_of(x@),
        n <= x.len(),
{
    let mut n: usize = 0;
    assert(x@.skip(0) == x@);
    while n < x.len() && (x[n] == ' ' || x[n] == '\t')
        invariant
            n <= x.len(),
            indent_of(x@) == n + indent_of(x@.skip(n as int)),
        decreases x.len() - n,
    {
        assert(x@.skip(n as int).drop_first() == x@.skip(n + 1));
        n += 1;
    }
    assert(indent_of(x@.skip(n as int)) == 0);
    n
}

fn is_blank_chars(x: &Vec<char>) -> (b: bool)
    ensures
        b == is_blank(x@),
{
    let t = trim_chars(x);
    t.len() == 0
}

/// Remove the common leading indentation from every non-blank line.
pub fn dedent(text: &str) -> (r: String)
    ensures
        r@ == dedent_spec(text@),
{
    let v = chars_of(text);
    let pieces = split_newline_chars(&v);
    let ghost p = split_newlines(v@);
    assert(vviews(pieces@) == p);
    let mut margin: Option<usize> = None;
    let mut i: usize = 0;
    while i < pieces.len()
        invariant
            i <= pieces.len(),
            vviews(pieces@) == p,
            margin_of(p.take(i as int)) == match margin {
                Some(k) => Some(k as nat),
                None => None::<nat>,
            },
        decreases pieces.len() - i,
    {
        assert(p.take(i + 1).drop_last() == p.take(i as int));
        assert(p.take(i + 1).last() == pieces@[i as int]@);
        let raw = strip_cr_chars(&pieces[i]);
        if !is_blank_chars(&raw) {
            let ind = indent_count(&raw);
            margin = match margin {
                Some(m) => Some(if m <= ind { m } else { ind }),
                None => Some(ind),
            };
        }
        i += 1;
    }
    assert(p.take(pieces.len() as int) == p);
    let m = match margin {
        None => {
            return string_of(&v);
        },
        Some(m) => m,
    };
    if m == 0 {
        return string_of(&v);
    }
    let mut out: Vec<char> = Vec::new();
    let mut k: usize = 0;
    while k < pieces.len()
        invariant
            k <= pieces.len(),
            vviews(pieces@) == p,
            out@ == dedent_concat(p, k as int, m as nat),
        decreases pieces.len() - k,
    {
        let has_nl = k + 1 < pieces.len();
        let raw = strip_cr_chars(&pieces[k]);
        assert(raw@ == strip_cr(p[k as int]));
        if is_blank_chars(&raw) {
            if has_nl {
                out.push('\n');
            }
        } else {
            if m < raw.len() {
                extend_range(&mut out, &raw, m, raw.len());
                assert(raw@.subrange(m as int, raw@.len() as int) == raw@.skip(m as int));
            }
            if has_nl {
                out.push('\n');
            }
        }
        k += 1;
        assert(out@ =~= dedent_concat(p, k as int, m as nat));
    }
    string_of(&out)
}

} // verus!
