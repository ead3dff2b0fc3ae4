//! Byte-span bookkeeping for the "file remainder" chunk: merging the spans
//! of extracted declarations and cutting them out of the source bytes.
use vstd::prelude::*;
use crate::text::{utf8_lossy, utf8_lossy_spec};

verus! {

pub type Span = (usize, usize);

// ---------------------------------------------------------------------------
// Stable sort by start
// ---------------------------------------------------------------------------

/// Insert `x` into `s` after every span whose start is `<= x.0`.
pub open spec fn insert_by_start(s: Seq<Span>, x: Span) -> Seq<Span>
    decreases s.len(),
{
    if s.len() == 0 {
        seq![x]
    } else if s.last().0 <= x.0 {
        s.push(x)
    } else {
        insert_by_start(s.drop_last(), x).push(s.last())
    }
}

/// Stable sort of `s` by span start (`slice::sort_by_key(|s| s.0)`).
pub open spec fn sort_by_start(s: Seq<Span>) -> Seq<Span>
    decreases s.len(),
{
    if s.len() == 0 {
        s
    } else {
        insert_by_start(sort_by_start(s.drop_last()), s.last())
    }
}

pub open spec fn sorted_by_start(s: Seq<Span>) -> bool {
    forall|i: int, j: int| 0 <= i <= j < s.len() ==> s[i].0 <= s[j].0
}

proof fn lemma_insert_by_start_is_insert(s: Seq<Span>, x: Span, p: int)
    requires
        0 <= p <= s.len(),
        forall|q: int| p <= q < s.len() ==> s[q].0 > x.0,
        p > 0 ==> s[p - 1].0 <= x.0,
    ensures
        insert_by_start(s, x) == s.insert(p, x),
    decreases s.len(),
{
    if s.len() == 0 {
        assert(s.insert(p, x) =~= seq![x]);
    } else if s.last().0 <= x.0 {
        assert(p == s.len());
        assert(s.insert(p, x) =~= s.push(x));
    } else {
        lemma_insert_by_start_is_insert(s.drop_last(), x, p);
        assert(s.insert(p, x) =~= s.drop_last().insert(p, x).push(s.last()));
    }
}

proof fn lemma_insert_by_start_multiset(s: Seq<Span>, x: Span)
    ensures
        insert_by_start(s, x).to_multiset() =~= s.to_multiset().insert(x),
        insert_by_start(s, x).len() == s.len() + 1,
    decreases s.len(),
{
    broadcast use vstd::seq_lib::group_to_multiset_ensures;

    if s.len() == 0 {
        assert(seq![x] =~= Seq::<Span>::empty().push(x));
    } else if s.last().0 <= x.0 {
    } else {
        let d = s.drop_last();
        lemma_insert_by_start_multiset(d, x);
        assert(s =~= d.push(s.last()));
    }
}

/// Whether `a` and `b` hold the same elements with the same multiplicities.
pub open spec fn same_elements(a: Seq<Span>, b: Seq<Span>) -> bool {
    a.to_multiset() =~= b.to_multiset()
}

proof fn lemma_same_elements_contains(a: Seq<Span>, b: Seq<Span>, y: Span)
    requires
        same_elements(a, b),
    ensures
        a.contains(y) <==> b.contains(y),
{
    broadcast use vstd::seq_lib::group_to_multiset_ensures;

    assert(a.contains(y) <==> a.to_multiset().count(y) > 0);
    assert(b.contains(y) <==> b.to_multiset().count(y) > 0);
}

proof fn lemma_insert_by_start_sorted(s: Seq<Span>, x: Span)
    requires
        sorted_by_start(s),
    ensures
        sorted_by_start(insert_by_start(s, x)),
    decreases s.len(),
{
    broadcast use vstd::seq_lib::group_to_multiset_ensures;

    let r = insert_by_start(s, x);
    if s.len() == 0 {
    } else if s.last().0 <= x.0 {
    } else {
        let d = s.drop_last();
        assert(sorted_by_start(d));
        lemma_insert_by_start_sorted(d, x);
        lemma_insert_by_start_multiset(d, x);
        let t = insert_by_start(d, x);
        assert forall|k: int| 0 <= k < t.len() implies t[k].0 <= s.last().0 by {
            assert(t.contains(t[k]));
            assert(t.to_multiset().count(t[k]) > 0);
            if t[k] != x {
                assert(d.to_multiset().count(t[k]) > 0);
                assert(d.contains(t[k]));
                let m = choose|m: int| 0 <= m < d.len() && d[m] == t[k];
                assert(s[m] == d[m]);
            }
        }
        assert forall|i: int, j: int| 0 <= i <= j < r.len() implies r[i].0 <= r[j].0 by {
            if j == r.len() - 1 {
                if i < j {
                    assert(r[i] == t[i]);
                }
            } else {
                assert(r[i] == t[i] && r[j] == t[j]);
            }
        }
    }
}

/// Law: sorting by start yields a sorted permutation of the input.
pub proof fn lemma_sort_by_start_props(s: Seq<Span>)
    ensures
        sorted_by_start(sort_by_start(s)),
        sort_by_start(s).len() == s.len(),
        same_elements(sort_by_start(s), s),
    decreases s.len(),
{
    broadcast use vstd::seq_lib::group_to_multiset_ensures;

    if s.len() > 0 {
        let d = s.drop_last();
        lemma_sort_by_start_props(d);
        lemma_insert_by_start_sorted(sort_by_start(d), s.last());
        lemma_insert_by_start_multiset(sort_by_start(d), s.last());
        assert(s =~= d.push(s.last()));
    }
}

/// Stable insertion sort by start.
fn sort_spans(spans: &[Span]) -> (r: Vec<Span>)
    ensures
        r@ == sort_by_start(spans@),
{
    let mut r: Vec<Span> = Vec::new();
    let mut k: usize = 0;
    while k < spans.len()
        invariant
            k <= spans.len(),
            r@ == sort_by_start(spans@.take(k as int)),
            sorted_by_start(r@),
        decreases spans.len() - k,
    {
        let x = spans[k];
        let mut p = r.len();
        while p > 0 && r[p - 1].0 > x.0
            invariant
                p <= r.len(),
                forall|q: int| p <= q < r.len() ==> r@[q].0 > x.0,
            decreases p,
        {
            p -= 1;
        }
        proof {
            lemma_insert_by_start_is_insert(r@, x, p as int);
            lemma_insert_by_start_sorted(r@, x);
            assert(spans@.take(k + 1).drop_last() == spans@.take(k as int));
        }
        r.insert(p, x);
        k += 1;
    }
    assert(spans@.take(spans.len() as int) == spans@);
    r
}

// ---------------------------------------------------------------------------
// Merging
// ---------------------------------------------------------------------------

/// Left fold that merges each span into the previous block when it starts
/// at or before that block's end.
pub open spec fn merge_fold(s: Seq<Span>) -> Seq<Span>
    decreases s.len(),
{
    if s.len() <= 1 {
        s
    } else {
        let m = merge_fold(s.drop_last());
        let x = s.last();
        let l = m.last();
        if x.0 <= l.1 {
            m.drop_last().push((l.0, if l.1 >= x.1 { l.1 } else { x.1 }))
        } else {
            m.push(x)
        }
    }
}

/// What `merge_spans` returns: the stable sort by start, folded.
pub open spec fn merge_spans_spec(spans: Seq<Span>) -> Seq<Span> {
    merge_fold(sort_by_start(spans))
}

/// Merge overlapping/adjacent byte spans.
pub fn merge_spans(spans: &[Span]) -> (r: Vec<Span>)
    ensures
        r@ == merge_spans_spec(spans@),
{
    if spans.len() == 0 {
        return Vec::new();
    }
    let sorted = sort_spans(spans);
    proof {
        lemma_sort_by_start_props(spans@);
    }
    let mut merged: Vec<Span> = Vec::new();
    merged.push(sorted[0]);
    assert(sorted@.take(1) =~= seq![sorted@[0]]);
    let mut k: usize = 1;
    while k < sorted.len()
        invariant
            1 <= k <= sorted.len(),
            merged.len() >= 1,
            merged@ == merge_fold(sorted@.take(k as int)),
        decreases sorted.len() - k,
    {
        let (start, end) = sorted[k];
        let last = merged.len() - 1;
        let (ls, le) = merged[last];
        assert(sorted@.take(k + 1).drop_last() == sorted@.take(k as int));
        if start <= le {
            let ne = if le >= end { le } else { end };
            merged.set(last, (ls, ne));
            assert(merged@ =~= merge_fold(sorted@.take(k as int)).drop_last().push((ls, ne)));
        } else {
            merged.push((start, end));
        }
        k += 1;
    }
    assert(sorted@.take(sorted.len() as int) == sorted@);
    merged
}

/// Whether position `p` lies in some half-open span of `s`.
pub open spec fn covered(s: Seq<Span>, p: int) -> bool {
    exists|i: int| 0 <= i < s.len() && (#[trigger] s[i]).0 <= p < s[i].1
}

/// Consecutive merged blocks are ordered and separated by a gap.
pub open spec fn separated(m: Seq<Span>) -> bool {
    forall|k: int| 0 <= k && k + 1 < m.len() ==> #[trigger] m[k].1 < m[k + 1].0 && m[k].0 <= m[k + 1].0
}

/// Whether span `x` covers position `p`.
pub open spec fn span_covers(x: Span, p: int) -> bool {
    x.0 <= p < x.1
}

proof fn lemma_covered_push(a: Seq<Span>, x: Span, p: int)
    ensures
        covered(a.push(x), p) <==> (covered(a, p) || span_covers(x, p)),
{
    let b = a.push(x);
    if covered(b, p) {
        let i = choose|i: int| 0 <= i < b.len() && (#[trigger] b[i]).0 <= p < b[i].1;
        if i < a.len() {
            assert(a[i] == b[i]);
        }
    }
    if covered(a, p) {
        let i = choose|i: int| 0 <= i < a.len() && (#[trigger] a[i]).0 <= p < a[i].1;
        assert(b[i] == a[i]);
    }
    if span_covers(x, p) {
        assert(b[a.len() as int] == x);
    }
}

proof fn lemma_covered_split_last(a: Seq<Span>, p: int)
    requires
        a.len() > 0,
    ensures
        covered(a, p) <==> (covered(a.drop_last(), p) || span_covers(a.last(), p)),
{
    lemma_covered_push(a.drop_last(), a.last(), p);
    assert(a.drop_last().push(a.last()) =~= a);
}

#[verifier::spinoff_prover]
proof fn lemma_merge_fold_shape(s: Seq<Span>)
    requires
        sorted_by_start(s),
    ensures
        separated(merge_fold(s)),
        s.len() > 0 ==> merge_fold(s).len() > 0,
        s.len() > 0 ==> merge_fold(s).last().0 <= s.last().0,
    decreases s.len(),
{
    let m = merge_fold(s);
    if s.len() > 1 {
        let d = s.drop_last();
        assert(sorted_by_start(d));
        lemma_merge_fold_shape(d);
        let md = merge_fold(d);
        let x = s.last();
        let l = md.last();
        assert(d.last() == s[s.len() - 2]);
        if x.0 <= l.1 {
            let ne = if l.1 >= x.1 { l.1 } else { x.1 };
            assert forall|k: int| 0 <= k && k + 1 < m.len() implies #[trigger] m[k].1 < m[k + 1].0 && m[k].0 <= m[k + 1].0 by {
                assert(m[k] == md[k]);
                if k + 1 < m.len() - 1 {
                    assert(m[k + 1] == md[k + 1]);
                } else {
                    assert(md[k + 1] == l);
                }
            }
        } else {
            assert forall|k: int| 0 <= k && k + 1 < m.len() implies #[trigger] m[k].1 < m[k + 1].0 && m[k].0 <= m[k + 1].0 by {
                assert(m[k] == md[k]);
                if k + 1 < m.len() - 1 {
                    assert(m[k + 1] == md[k + 1]);
                }
            }
        }
    }
}

proof fn lemma_merge_fold_covered(s: Seq<Span>, p: int)
    requires
        sorted_by_start(s),
    ensures
        covered(merge_fold(s), p) <==> covered(s, p),
    decreases s.len(),
{
    if s.len() > 1 {
        let d = s.drop_last();
        assert(sorted_by_start(d));
        lemma_merge_fold_covered(d, p);
        lemma_merge_fold_shape(d);
        let md = merge_fold(d);
        let x = s.last();
        let l = md.last();
        assert(d.last() == s[s.len() - 2]);
        lemma_covered_split_last(s, p);
        if x.0 <= l.1 {
            let ne = if l.1 >= x.1 { l.1 } else { x.1 };
            lemma_covered_split_last(md, p);
            lemma_covered_push(md.drop_last(), (l.0, ne), p);
        } else {
            lemma_covered_push(md, x, p);
        }
    }
}

/// Whether a span, taken as a closed interval, holds position `p`.
pub open spec fn closed_covered(s: Seq<Span>, p: int) -> bool {
    exists|i: int| 0 <= i < s.len() && (#[trigger] s[i]).0 <= p <= s[i].1
}

proof fn lemma_closed_split_last(a: Seq<Span>, p: int)
    requires
        a.len() > 0,
    ensures
        closed_covered(a, p) <==> (closed_covered(a.drop_last(), p) || (a.last().0 <= p <= a.last().1)),
{
    let d = a.drop_last();
    if closed_covered(a, p) {
        let i = choose|i: int| 0 <= i < a.len() && (#[trigger] a[i]).0 <= p <= a[i].1;
        if i < d.len() {
            assert(d[i] == a[i]);
        }
    }
    if closed_covered(d, p) {
        let i = choose|i: int| 0 <= i < d.len() && (#[trigger] d[i]).0 <= p <= d[i].1;
        assert(a[i] == d[i]);
    }
}

proof fn lemma_merge_fold_closed(s: Seq<Span>, p: int)
    requires
        sorted_by_start(s),
    ensures
        closed_covered(merge_fold(s), p) <==> closed_covered(s, p),
    decreases s.len(),
{
    if s.len() > 1 {
        let d = s.drop_last();
        assert(sorted_by_start(d));
        lemma_merge_fold_closed(d, p);
        lemma_merge_fold_shape(d);
        let md = merge_fold(d);
        let x = s.last();
        let l = md.last();
        assert(d.last() == s[s.len() - 2]);
        lemma_closed_split_last(s, p);
        lemma_closed_split_last(md, p);
        let m = merge_fold(s);
        if x.0 <= l.1 {
            let ne = if l.1 >= x.1 { l.1 } else { x.1 };
            assert(m == md.drop_last().push((l.0, ne)));
            lemma_closed_split_last(m, p);
            assert(m.drop_last() =~= md.drop_last());
        } else {
            assert(m == md.push(x));
            lemma_closed_split_last(m, p);
            assert(m.drop_last() =~= md);
        }
    }
}

/// Law: merged spans are ordered, pairwise separated by a gap, none when
/// there are no spans, and cover exactly the positions the input spans
/// cover, whether spans are read as half-open or as closed intervals (so
/// touching spans merge, and the result does not depend on the spans'
/// order).
pub proof fn lemma_merge_spans_laws(spans: Seq<Span>)
    ensures
        separated(merge_spans_spec(spans)),
        merge_spans_spec(spans).len() <= spans.len(),
        (merge_spans_spec(spans).len() == 0) <==> (spans.len() == 0),
        forall|p: int| covered(merge_spans_spec(spans), p) <==> covered(spans, p),
        forall|p: int| closed_covered(merge_spans_spec(spans), p) <==> closed_covered(spans, p),
{
    lemma_sort_by_start_props(spans);
    let t = sort_by_start(spans);
    lemma_merge_fold_shape(t);
    lemma_merge_fold_len(t);
    assert forall|p: int| covered(merge_fold(t), p) <==> covered(t, p) by {
        lemma_merge_fold_covered(t, p);
    }
    assert forall|p: int| covered(t, p) <==> covered(spans, p) by {
        if covered(t, p) {
            let i = choose|i: int| 0 <= i < t.len() && (#[trigger] t[i]).0 <= p < t[i].1;
            assert(t.contains(t[i]));
            lemma_same_elements_contains(t, spans, t[i]);
            let j = choose|j: int| 0 <= j < spans.len() && spans[j] == t[i];
            assert(spans[j].0 <= p < spans[j].1);
        }
        if covered(spans, p) {
            let i = choose|i: int| 0 <= i < spans.len() && (#[trigger] spans[i]).0 <= p < spans[i].1;
            assert(spans.contains(spans[i]));
            lemma_same_elements_contains(t, spans, spans[i]);
            let j = choose|j: int| 0 <= j < t.len() && t[j] == spans[i];
            assert(t[j].0 <= p < t[j].1);
        }
    }
    assert forall|p: int| closed_covered(merge_fold(t), p) <==> closed_covered(spans, p) by {
        lemma_merge_fold_closed(t, p);
        if closed_covered(t, p) {
            let i = choose|i: int| 0 <= i < t.len() && (#[trigger] t[i]).0 <= p <= t[i].1;
            assert(t.contains(t[i]));
            lemma_same_elements_contains(t, spans, t[i]);
            let j = choose|j: int| 0 <= j < spans.len() && spans[j] == t[i];
            assert(spans[j].0 <= p <= spans[j].1);
        }
        if closed_covered(spans, p) {
            let i = choose|i: int| 0 <= i < spans.len() && (#[trigger] spans[i]).0 <= p <= spans[i].1;
            assert(spans.contains(spans[i]));
            lemma_same_elements_contains(t, spans, spans[i]);
            let j = choose|j: int| 0 <= j < t.len() && t[j] == spans[i];
            assert(t[j].0 <= p <= t[j].1);
        }
    }
}

proof fn lemma_merge_fold_len(s: Seq<Span>)
    ensures
        merge_fold(s).len() <= s.len(),
    decreases s.len(),
{
    if s.len() > 1 {
        lemma_merge_fold_len(s.drop_last());
    }
}

} // verus!

verus! {

// ---------------------------------------------------------------------------
// Remainder text
// ---------------------------------------------------------------------------

/// Left fold over merged spans that collects the bytes between them:
/// the collected bytes and the end of the last span seen (clamped to the
/// source length).
pub open spec fn remainder_state(src: Seq<u8>, m: Seq<Span>) -> (Seq<u8>, int)
    decreases m.len(),
{
    if m.len() == 0 {
        (Seq::empty(), 0)
    } else {
        let (acc, last) = remainder_state(src, m.drop_last());
        let x = m.last();
        let start: int = if x.0 <= src.len() { x.0 as int } else { src.len() as int };
        let end: int = if x.1 <= src.len() { x.1 as int } else { src.len() as int };
        let new_last = if last >= end { last } else { end };
        if start > last {
            (acc + src.subrange(last, start), new_last)
        } else {
            (acc, new_last)
        }
    }
}

pub proof fn lemma_remainder_state_bounds(src: Seq<u8>, m: Seq<Span>)
    ensures
        0 <= remainder_state(src, m).1 <= src.len(),
    decreases m.len(),
{
    if m.len() > 0 {
        lemma_remainder_state_bounds(src, m.drop_last());
    }
}

/// The bytes of `src` that `build_remainder_code` keeps.
pub open spec fn remainder_bytes(src: Seq<u8>, spans: Seq<Span>) -> Seq<u8> {
    if spans.len() == 0 {
        src
    } else {
        let (acc, last) = remainder_state(src, merge_spans_spec(spans));
        if last < src.len() {
            acc + src.subrange(last, src.len() as int)
        } else {
            acc
        }
    }
}

/// The file-remainder text: the source with every span removed, decoded
/// lossily as UTF-8.
pub fn build_remainder_code(source_bytes: &[u8], spans: &[Span]) -> (r: String)
    ensures
        r@ == utf8_lossy_spec(remainder_bytes(source_bytes@, spans@)),
        is_ascii_bytes(source_bytes@) && well_formed_spans(spans@) ==> r@ == ascii_text(
            uncovered_bytes(source_bytes@, spans@, source_bytes@.len() as int),
        ),
{
    if spans.len() == 0 {
        let r = utf8_lossy(source_bytes);
        proof {
            if is_ascii_bytes(source_bytes@) && well_formed_spans(spans@) {
                lemma_ascii_remainder(source_bytes@, spans@);
            }
        }
        return r;
    }
    let len = source_bytes.len();
    let merged = merge_spans(spans);
    let ghost src = source_bytes@;
    let mut out: Vec<u8> = Vec::new();
    let mut last_end: usize = 0;
    let mut k: usize = 0;
    while k < merged.len()
        invariant
            k <= merged.len(),
            len == src.len(),
            src == source_bytes@,
            last_end <= len,
            remainder_state(src, merged@.take(k as int)) == (out@, last_end as int),
        decreases merged.len() - k,
    {
        let (s0, e0) = merged[k];
        let start = if s0 <= len { s0 } else { len };
        let end = if e0 <= len { e0 } else { len };
        assert(merged@.take(k + 1).drop_last() == merged@.take(k as int));
        if start > last_end {
            push_bytes(&mut out, source_bytes, last_end, start);
        }
        if end > last_end {
            last_end = end;
        }
        k += 1;
    }
    assert(merged@.take(merged.len() as int) == merged@);
    if last_end < len {
        push_bytes(&mut out, source_bytes, last_end, len);
    }
    let r = utf8_lossy(out.as_slice());
    proof {
        if is_ascii_bytes(source_bytes@) && well_formed_spans(spans@) {
            lemma_ascii_remainder(source_bytes@, spans@);
        }
    }
    r
}

/// Bytes that are all ASCII.
pub open spec fn is_ascii_bytes(b: Seq<u8>) -> bool {
    forall|i: int| 0 <= i < b.len() ==> #[trigger] b[i] < 128
}

/// ASCII bytes read as characters, one each.
pub open spec fn ascii_text(b: Seq<u8>) -> Seq<char> {
    Seq::new(b.len(), |i: int| b[i] as char)
}

proof fn lemma_ascii_decode(b: Seq<u8>)
    requires
        is_ascii_bytes(b),
    ensures
        vstd::utf8::valid_utf8(b),
        vstd::utf8::decode_utf8(b) == ascii_text(b),
{
    let c = ascii_text(b);
    assert(vstd::utf8::is_ascii_chars(c)) by {
        assert forall|i: int| 0 <= i < c.len() implies '\0' <= #[trigger] c[i] <= '\u{7f}' by {
            assert(b[i] < 128);
        }
    }
    vstd::utf8::is_ascii_chars_encode_utf8(c);
    assert forall|i: int| 0 <= i < b.len() implies vstd::utf8::encode_utf8(c)[i] == b[i] by {
        assert(c[i] as u8 == vstd::utf8::encode_utf8(c)[i]);
        assert(b[i] < 128);
        assert((b[i] as char) as u8 == b[i]);
    }
    assert(vstd::utf8::encode_utf8(c) =~= b);
    vstd::utf8::encode_utf8_valid_utf8(c);
    vstd::utf8::encode_utf8_decode_utf8(c);
}

proof fn lemma_uncovered_ascii(src: Seq<u8>, spans: Seq<Span>, n: int)
    requires
        is_ascii_bytes(src),
        n <= src.len(),
    ensures
        is_ascii_bytes(uncovered_bytes(src, spans, n)),
    decreases n,
{
    if n > 0 {
        lemma_uncovered_ascii(src, spans, n - 1);
        let r = uncovered_bytes(src, spans, n - 1);
        if !covered(spans, n - 1) {
            assert forall|i: int| 0 <= i < r.push(src[n - 1]).len() implies #[trigger] r.push(src[n - 1])[i] < 128 by {
                if i < r.len() {
                    assert(r.push(src[n - 1])[i] == r[i]);
                }
            }
        }
    }
}

/// For ASCII source text, the remainder bytes are valid UTF-8 and decode to
/// exactly the characters at the positions no span covers.
proof fn lemma_ascii_remainder(src: Seq<u8>, spans: Seq<Span>)
    requires
        is_ascii_bytes(src),
        well_formed_spans(spans),
    ensures
        vstd::utf8::valid_utf8(remainder_bytes(src, spans)),
        vstd::utf8::decode_utf8(remainder_bytes(src, spans)) == ascii_text(uncovered_bytes(src, spans, src.len() as int)),
{
    lemma_remainder_keeps_uncovered(src, spans);
    lemma_uncovered_ascii(src, spans, src.len() as int);
    lemma_ascii_decode(uncovered_bytes(src, spans, src.len() as int));
}

/// Appends `src[from..to]` to `dst`.
fn push_bytes(dst: &mut Vec<u8>, src: &[u8], from: usize, to: usize)
    requires
        from <= to <= src.len(),
    ensures
        final(dst)@ == old(dst)@ + src@.subrange(from as int, to as int),
{
    let ghost start = dst@;
    let mut i = from;
    while i < to
        invariant
            from <= i <= to <= src.len(),
            dst@ == start + src@.subrange(from as int, i as int),
        decreases to - i,
    {
        dst.push(src[i]);
        i += 1;
        assert(src@.subrange(from as int, i as int) == src@.subrange(from as int, i - 1).push(
            src@[i - 1],
        ));
    }
}

/// Lossy UTF-8 text of `source[start..end]`, or empty for an invalid range.
pub fn byte_slice_text(source: &[u8], start: usize, end: usize) -> (r: String)
    ensures
        r@ == if start > end || end > source@.len() {
            Seq::empty()
        } else {
            utf8_lossy_spec(source@.subrange(start as int, end as int))
        },
        start <= end <= source@.len() && vstd::utf8::valid_utf8(
            source@.subrange(start as int, end as int),
        ) ==> r@ == vstd::utf8::decode_utf8(source@.subrange(start as int, end as int)),
{
    if start > end || end > source.len() {
        return String::new();
    }
    let mut v: Vec<u8> = Vec::new();
    push_bytes(&mut v, source, start, end);
    utf8_lossy(v.as_slice())
}

} // verus!

verus! {

// ---------------------------------------------------------------------------
// Law: the remainder keeps exactly the uncovered bytes
// ---------------------------------------------------------------------------

/// Every span starts at or before its end.
pub open spec fn well_formed_spans(s: Seq<Span>) -> bool {
    forall|i: int| 0 <= i < s.len() ==> (#[trigger] s[i]).0 <= s[i].1
}

/// The bytes of `src[..n]` at positions no span covers, in order.
pub open spec fn uncovered_bytes(src: Seq<u8>, spans: Seq<Span>, n: int) -> Seq<u8>
    decreases n,
{
    if n <= 0 {
        Seq::empty()
    } else {
        let r = uncovered_bytes(src, spans, n - 1);
        if covered(spans, n - 1) {
            r
        } else {
            r.push(src[n - 1])
        }
    }
}

proof fn lemma_uncovered_run(src: Seq<u8>, spans: Seq<Span>, n1: int, n2: int)
    requires
        0 <= n1 <= n2 <= src.len(),
        forall|p: int| n1 <= p < n2 ==> !covered(spans, p),
    ensures
        uncovered_bytes(src, spans, n2) == uncovered_bytes(src, spans, n1) + src.subrange(n1, n2),
    decreases n2 - n1,
{
    if n2 > n1 {
        lemma_uncovered_run(src, spans, n1, n2 - 1);
        assert(src.subrange(n1, n2) == src.subrange(n1, n2 - 1).push(src[n2 - 1]));
    } else {
        assert(src.subrange(n1, n2) =~= Seq::<u8>::empty());
    }
}

proof fn lemma_covered_run(src: Seq<u8>, spans: Seq<Span>, n1: int, n2: int)
    requires
        0 <= n1 <= n2,
        forall|p: int| n1 <= p < n2 ==> covered(spans, p),
    ensures
        uncovered_bytes(src, spans, n2) == uncovered_bytes(src, spans, n1),
    decreases n2 - n1,
{
    if n2 > n1 {
        lemma_covered_run(src, spans, n1, n2 - 1);
    }
}

proof fn lemma_merge_fold_well_formed(s: Seq<Span>)
    requires
        well_formed_spans(s),
    ensures
        well_formed_spans(merge_fold(s)),
    decreases s.len(),
{
    if s.len() > 1 {
        let d = s.drop_last();
        assert(well_formed_spans(d)) by {
            assert forall|i: int| 0 <= i < d.len() implies (#[trigger] d[i]).0 <= d[i].1 by {
                assert(d[i] == s[i]);
            }
        }
        lemma_merge_fold_well_formed(d);
        let md = merge_fold(d);
        let m = merge_fold(s);
        let x = s.last();
        assert(x.0 <= x.1);
        assert forall|i: int| 0 <= i < m.len() implies (#[trigger] m[i]).0 <= m[i].1 by {
            if i < md.len() - 1 || (i < md.len() && !(x.0 <= md.last().1)) {
                assert(m[i] == md[i]);
            }
        }
    }
}

/// In separated, well-formed blocks every earlier block ends before every
/// later block starts.
proof fn lemma_separated_ordered(m: Seq<Span>, i: int, j: int)
    requires
        separated(m),
        well_formed_spans(m),
        0 <= i < j < m.len(),
    ensures
        m[i].1 < m[j].0,
        m[i].1 < m[j].1,
    decreases j - i,
{
    assert(m[i].1 < m[i + 1].0);
    assert(m[j].0 <= m[j].1);
    if i + 1 < j {
        lemma_separated_ordered(m, i + 1, j);
        assert(m[i + 1].0 <= m[i + 1].1);
    }
}

proof fn lemma_remainder_state_uncovered(src: Seq<u8>, m: Seq<Span>, k: int)
    requires
        separated(m),
        well_formed_spans(m),
        0 <= k <= m.len(),
    ensures
        remainder_state(src, m.take(k)).0 == uncovered_bytes(src, m, remainder_state(src, m.take(k)).1),
        k == 0 ==> remainder_state(src, m.take(k)).1 == 0,
        k > 0 ==> remainder_state(src, m.take(k)).1 == if m[k - 1].1 <= src.len() {
            m[k - 1].1 as int
        } else {
            src.len() as int
        },
    decreases k,
{
    if k > 0 {
        lemma_remainder_state_uncovered(src, m, k - 1);
        let t = m.take(k);
        assert(t.drop_last() == m.take(k - 1));
        let (acc, last) = remainder_state(src, m.take(k - 1));
        let x = m[k - 1];
        assert(t.last() == x);
        let len = src.len() as int;
        let start: int = if x.0 <= len { x.0 as int } else { len };
        let end: int = if x.1 <= len { x.1 as int } else { len };
        assert(x.0 <= x.1);
        if k > 1 {
            assert(m[k - 2].1 < m[k - 1].0);
        }
        assert(last <= start);
        // positions in [last, start) are covered by no block
        assert forall|p: int| last <= p < start implies !covered(m, p) by {
            if covered(m, p) {
                let i = choose|i: int| 0 <= i < m.len() && (#[trigger] m[i]).0 <= p < m[i].1;
                if i < k - 1 {
                    lemma_separated_ordered(m, i, k - 2);
                    if i < k - 2 {
                        assert(m[i].1 < m[k - 2].1);
                    }
                } else if i > k - 1 {
                    lemma_separated_ordered(m, k - 1, i);
                }
            }
        }
        assert forall|p: int| start <= p < end implies covered(m, p) by {
            assert(m[k - 1].0 <= p < m[k - 1].1);
        }
        lemma_uncovered_run(src, m, last, start);
        lemma_covered_run(src, m, start, end);
    }
}

/// Law: for spans that start at or before their end, the remainder holds
/// exactly the source bytes that no span covers, in their original order.
pub proof fn lemma_remainder_keeps_uncovered(src: Seq<u8>, spans: Seq<Span>)
    requires
        well_formed_spans(spans),
    ensures
        remainder_bytes(src, spans) == uncovered_bytes(src, spans, src.len() as int),
{
    let len = src.len() as int;
    if spans.len() == 0 {
        assert forall|p: int| 0 <= p < len implies !covered(spans, p) by {}
        lemma_uncovered_run(src, spans, 0, len);
        assert(src.subrange(0, len) == src);
    } else {
        let t = sort_by_start(spans);
        lemma_sort_by_start_props(spans);
        assert(well_formed_spans(t)) by {
            assert forall|i: int| 0 <= i < t.len() implies (#[trigger] t[i]).0 <= t[i].1 by {
                assert(t.contains(t[i]));
                lemma_same_elements_contains(t, spans, t[i]);
                let j = choose|j: int| 0 <= j < spans.len() && spans[j] == t[i];
                assert(spans[j].0 <= spans[j].1);
            }
        }
        lemma_merge_fold_well_formed(t);
        lemma_merge_spans_laws(spans);
        let m = merge_spans_spec(spans);
        lemma_merge_fold_shape(t);
        lemma_remainder_state_uncovered(src, m, m.len() as int);
        assert(m.take(m.len() as int) == m);
        let (acc, last) = remainder_state(src, m);
        // positions past the last block's end are uncovered
        assert forall|p: int| last <= p < len implies !covered(m, p) by {
            if covered(m, p) {
                let i = choose|i: int| 0 <= i < m.len() && (#[trigger] m[i]).0 <= p < m[i].1;
                if i < m.len() - 1 {
                    lemma_separated_ordered(m, i, m.len() - 1);
                }
            }
        }
        lemma_remainder_state_bounds(src, m);
        lemma_uncovered_run(src, m, last, len);
        // coverage by `m` and by `spans` agree everywhere
        lemma_uncovered_same_coverage(src, m, spans, len);
    }
}

proof fn lemma_uncovered_same_coverage(src: Seq<u8>, a: Seq<Span>, b: Seq<Span>, n: int)
    requires
        forall|p: int| covered(a, p) <==> covered(b, p),
    ensures
        uncovered_bytes(src, a, n) == uncovered_bytes(src, b, n),
    decreases n,
{
    if n > 0 {
        lemma_uncovered_same_coverage(src, a, b, n - 1);
    }
}

} // verus!
