//! Sequence-of-strings helpers: joining with a separator and splitting on
//! newlines, with their specifications over `Seq<Seq<char>>`.
use vstd::prelude::*;
use crate::text::{extend_all, extend_range, string_of, chars_of};
use crate::chunk_helpers::line_end;

verus! {

/// `parts.join(sep)`.
pub open spec fn join(parts: Seq<Seq<char>>, sep: Seq<char>) -> Seq<char>
    decreases parts.len(),
{
    if parts.len() == 0 {
        Seq::empty()
    } else if parts.len() == 1 {
        parts[0]
    } else {
        join(parts.drop_last(), sep) + sep + parts.last()
    }
}

/// The character views of a vector of strings.
pub open spec fn views(v: Seq<String>) -> Seq<Seq<char>> {
    Seq::new(v.len(), |i: int| v[i]@)
}

/// The character views of a vector of character vectors.
pub open spec fn vviews(v: Seq<Vec<char>>) -> Seq<Seq<char>> {
    Seq::new(v.len(), |i: int| v[i]@)
}

/// Joins character vectors with `sep`.
pub fn join_chars(parts: &Vec<Vec<char>>, sep: &Vec<char>) -> (r: Vec<char>)
    ensures
        r@ == join(vviews(parts@), sep@),
{
    let mut r: Vec<char> = Vec::new();
    let mut i: usize = 0;
    while i < parts.len()
        invariant
            i <= parts.len(),
            r@ == join(vviews(parts@).take(i as int), sep@),
        decreases parts.len() - i,
    {
        let ghost before = vviews(parts@).take(i as int);
        if i > 0 {
            extend_all(&mut r, sep);
        }
        extend_all(&mut r, &parts[i]);
        i += 1;
        assert(vviews(parts@).take(i as int).drop_last() == before);
        assert(vviews(parts@).take(i as int).last() == parts@[i - 1]@);
        if i == 1 {
            assert(vviews(parts@).take(1) == seq![parts@[0]@]);
        }
    }
    assert(vviews(parts@).take(parts.len() as int) == vviews(parts@));
    r
}

/// Joins strings with `sep` (`[String]::join`).
pub fn join_strings(parts: &Vec<String>, sep: &str) -> (r: String)
    ensures
        r@ == join(views(parts@), sep@),
{
    let mut cv: Vec<Vec<char>> = Vec::new();
    let mut i: usize = 0;
    while i < parts.len()
        invariant
            i <= parts.len(),
            vviews(cv@) == views(parts@).take(i as int),
        decreases parts.len() - i,
    {
        let c = chars_of(parts[i].as_str());
        let ghost old_cv = vviews(cv@);
        cv.push(c);
        i += 1;
        assert(vviews(cv@) =~= old_cv.push(parts@[i - 1]@));
        assert(views(parts@).take(i as int) =~= views(parts@).take(i - 1).push(parts@[i - 1]@));
    }
    assert(views(parts@).take(parts.len() as int) == views(parts@));
    let sepv = chars_of(sep);
    let r = join_chars(&cv, &sepv);
    string_of(&r)
}

/// `str::split('\n')` from character index `i`: the pieces between
/// newlines, the last piece running to the end of the text.
pub open spec fn split_from(s: Seq<char>, i: int) -> Seq<Seq<char>>
    decreases s.len() - i,
{
    let e = line_end(s, i);
    if i < 0 || i > s.len() {
        Seq::empty()
    } else if e >= s.len() {
        seq![s.subrange(i, s.len() as int)]
    } else {
        proof {
            crate::chunk_helpers::lemma_line_end_bounds(s, i);
        }
        seq![s.subrange(i, e)] + split_from(s, e + 1)
    }
}

/// `str::split('\n')`.
pub open spec fn split_newlines(s: Seq<char>) -> Seq<Seq<char>> {
    split_from(s, 0)
}

/// Splits a character vector on newlines (`str::split('\n')`).
pub fn split_newline_chars(v: &Vec<char>) -> (r: Vec<Vec<char>>)
    ensures
        vviews(r@) == split_newlines(v@),
{
    let mut r: Vec<Vec<char>> = Vec::new();
    let mut i: usize = 0;
    loop
        invariant
            i <= v.len(),
            vviews(r@) + split_from(v@, i as int) == split_newlines(v@),
        decreases v.len() - i,
    {
        let e = crate::chunk_helpers::scan_line(v, i);
        let mut piece: Vec<char> = Vec::new();
        extend_range(&mut piece, v, i, e);
        let ghost before = vviews(r@);
        r.push(piece);
        assert(vviews(r@) == before.push(piece@));
        if e >= v.len() {
            assert(vviews(r@) == split_newlines(v@));
            return r;
        }
        assert(split_from(v@, i as int) == seq![v@.subrange(i as int, e as int)] + split_from(
            v@,
            e + 1,
        ));
        assert(vviews(r@) + split_from(v@, e + 1) == before + split_from(v@, i as int));
        i = e + 1;
    }
}

} // verus!

verus! {

/// The non-empty entries of `s`, in order.
pub open spec fn nonempty_only(s: Seq<Seq<char>>) -> Seq<Seq<char>>
    decreases s.len(),
{
    if s.len() == 0 {
        s
    } else if s.last().len() == 0 {
        nonempty_only(s.drop_last())
    } else {
        nonempty_only(s.drop_last()).push(s.last())
    }
}

/// Keeps the non-empty strings of `v`, in order.
pub fn keep_nonempty(v: &Vec<String>) -> (r: Vec<String>)
    ensures
        views(r@) == nonempty_only(views(v@)),
{
    let mut r: Vec<String> = Vec::new();
    let mut i: usize = 0;
    while i < v.len()
        invariant
            i <= v.len(),
            views(r@) == nonempty_only(views(v@).take(i as int)),
        decreases v.len() - i,
    {
        let ghost before = views(r@);
        assert(views(v@).take(i + 1).drop_last() == views(v@).take(i as int));
        assert(views(v@).take(i + 1).last() == v@[i as int]@);
        let c = chars_of(v[i].as_str());
        if c.len() > 0 {
            r.push(v[i].clone());
            assert(views(r@) =~= before.push(v@[i as int]@));
        }
        i += 1;
    }
    assert(views(v@).take(v.len() as int) == views(v@));
    r
}

/// Appends a string to a vector of strings.
pub fn push_string(v: &mut Vec<String>, s: String)
    ensures
        views(final(v)@) == views(old(v)@).push(s@),
{
    let ghost before = views(v@);
    v.push(s);
    assert(views(v@) =~= before.push(s@));
}

/// Appends all strings of `w` to `v`.
pub fn append_strings(v: &mut Vec<String>, w: &Vec<String>)
    ensures
        views(final(v)@) == views(old(v)@) + views(w@),
{
    let ghost start = views(v@);
    let mut i: usize = 0;
    while i < w.len()
        invariant
            i <= w.len(),
            views(v@) == start + views(w@).take(i as int),
        decreases w.len() - i,
    {
        push_string(v, w[i].clone());
        i += 1;
        assert(views(w@).take(i as int) == views(w@).take(i - 1).push(w@[i - 1]@));
    }
    assert(views(w@).take(w.len() as int) == views(w@));
}

} // verus!
