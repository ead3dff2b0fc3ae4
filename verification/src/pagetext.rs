//! Byte-level handling of page text: splitting prose into windows of about
//! `4 * chunk_size` bytes without cutting a character or (when possible) a
//! word, and telling HTML responses apart.
use vstd::prelude::*;
use vstd::utf8::{valid_utf8, decode_utf8, encode_utf8, is_char_boundary};
use vstd::string::StringSliceAdditionalSpecFns;
use crate::text::{
    chars_of, string_of, string_of_range, ascii_lower_chars, ascii_lower_seq, contains_chars,
    contains_spec, trim_start_spec, trim_start_pos, utf8_lossy,
};
use crate::ingest::concat_all;
use crate::seqtext::{views, push_string};

verus! {

/// `u8::is_ascii_whitespace`: space, tab, line feed, form feed, carriage return.
pub open spec fn is_ascii_ws_byte(x: u8) -> bool {
    x == 0x20u8 || x == 0x09u8 || x == 0x0au8 || x == 0x0cu8 || x == 0x0du8
}

/// Walks `end` back to a character boundary, stopping at `start`.
pub open spec fn boundary_back(b: Seq<u8>, start: int, end: int) -> int
    decreases end - start,
{
    if end > start && !is_char_boundary(b, end) {
        boundary_back(b, start, end - 1)
    } else {
        end
    }
}

/// Walks `end` forward to the next character boundary (or the end).
pub open spec fn boundary_fwd(b: Seq<u8>, end: int) -> int
    decreases b.len() - end,
{
    if 0 <= end < b.len() && !is_char_boundary(b, end) {
        boundary_fwd(b, end + 1)
    } else {
        end
    }
}

/// Walks `e` back to an ASCII whitespace byte, stopping at `start` (and not
/// moving from the end of the text).
pub open spec fn ws_back(b: Seq<u8>, start: int, e: int) -> int
    decreases e - start,
{
    if e > start && 0 <= e < b.len() && !is_ascii_ws_byte(b[e]) {
        ws_back(b, start, e - 1)
    } else {
        e
    }
}

/// End of the window starting at `start`: at most `target` bytes on a
/// character boundary (one whole character when the first one is wider),
/// moved back to the last ASCII whitespace inside it when there is one.
pub open spec fn piece_end(b: Seq<u8>, start: int, target: int) -> int {
    let end0 = if target >= b.len() - start {
        b.len() as int
    } else {
        start + target
    };
    let end1 = boundary_back(b, start, end0);
    let end2 = if end1 == start {
        boundary_fwd(b, start + 1)
    } else {
        end1
    };
    let e = ws_back(b, start, end2);
    if e == start {
        end2
    } else {
        e
    }
}

/// The byte windows `(start, end)` from `start` to the end of the text.
pub open spec fn windows(b: Seq<u8>, start: int, target: int) -> Seq<(int, int)>
    decreases b.len() - start,
{
    if start < 0 || start >= b.len() || target <= 0 {
        Seq::empty()
    } else {
        let e = piece_end(b, start, target);
        if e <= start || e > b.len() {
            Seq::empty()
        } else {
            seq![(start, e)] + windows(b, e, target)
        }
    }
}

/// The text of each byte window.
pub open spec fn decoded_windows(b: Seq<u8>, w: Seq<(int, int)>) -> Seq<Seq<char>> {
    Seq::new(w.len(), |k: int| decode_utf8(b.subrange(w[k].0, w[k].1)))
}

/// What `simple_chunk` returns: the text whole when it fits in
/// `4 * chunk_size` bytes (or the size is zero), else its windows.
pub open spec fn simple_chunks(text: Seq<char>, chunk_size: int) -> Seq<Seq<char>> {
    let b = encode_utf8(text);
    if chunk_size == 0 || b.len() <= chunk_size * 4 {
        seq![text]
    } else {
        decoded_windows(b, windows(b, 0, chunk_size * 4))
    }
}

proof fn lemma_boundary_back(b: Seq<u8>, start: int, end: int)
    requires
        start <= end,
    ensures
        start <= boundary_back(b, start, end) <= end,
        boundary_back(b, start, end) > start ==> is_char_boundary(b, boundary_back(b, start, end)),
    decreases end - start,
{
    if end > start && !is_char_boundary(b, end) {
        lemma_boundary_back(b, start, end - 1);
    }
}

proof fn lemma_boundary_fwd(b: Seq<u8>, end: int)
    requires
        valid_utf8(b),
        0 <= end <= b.len(),
    ensures
        end <= boundary_fwd(b, end) <= b.len(),
        is_char_boundary(b, boundary_fwd(b, end)),
    decreases b.len() - end,
{
    vstd::utf8::is_char_boundary_start_end_of_seq(b);
    if end < b.len() && !is_char_boundary(b, end) {
        lemma_boundary_fwd(b, end + 1);
    }
}

proof fn lemma_ws_back(b: Seq<u8>, start: int, e: int)
    requires
        start <= e,
    ensures
        start <= ws_back(b, start, e) <= e,
        !(ws_back(b, start, e) > start && 0 <= ws_back(b, start, e) < b.len() && !is_ascii_ws_byte(
            b[ws_back(b, start, e)],
        )),
    decreases e - start,
{
    if e > start && 0 <= e < b.len() && !is_ascii_ws_byte(b[e]) {
        lemma_ws_back(b, start, e - 1);
    }
}

/// A window ends after it starts, within the text, on a character boundary.
proof fn lemma_piece_end(b: Seq<u8>, start: int, target: int)
    requires
        valid_utf8(b),
        0 <= start < b.len(),
        target > 0,
    ensures
        start < piece_end(b, start, target) <= b.len(),
        is_char_boundary(b, piece_end(b, start, target)),
{
    vstd::utf8::is_char_boundary_start_end_of_seq(b);
    let end0 = if target >= b.len() - start {
        b.len() as int
    } else {
        start + target
    };
    lemma_boundary_back(b, start, end0);
    let end1 = boundary_back(b, start, end0);
    let end2 = if end1 == start {
        boundary_fwd(b, start + 1)
    } else {
        end1
    };
    if end1 == start {
        lemma_boundary_fwd(b, start + 1);
    }
    assert(start < end2 <= b.len() && is_char_boundary(b, end2));
    lemma_ws_back(b, start, end2);
    let e = ws_back(b, start, end2);
    if e != start && e != end2 {
        vstd::utf8::is_char_boundary_iff_is_leading_byte(b, e);
    }
}

proof fn lemma_sub_boundary(b: Seq<u8>, start: int, e: int)
    requires
        valid_utf8(b),
        0 <= start < e <= b.len(),
        is_char_boundary(b, start),
        is_char_boundary(b, e),
    ensures
        valid_utf8(b.subrange(start, b.len() as int)),
        is_char_boundary(b.subrange(start, b.len() as int), e - start),
{
    vstd::utf8::valid_utf8_split(b, start);
    let t = b.subrange(start, b.len() as int);
    vstd::utf8::is_char_boundary_start_end_of_seq(t);
    if e < b.len() {
        vstd::utf8::is_char_boundary_iff_not_is_continuation_byte(b, e);
        vstd::utf8::is_char_boundary_iff_not_is_continuation_byte(t, e - start);
        assert(t[e - start] == b[e]);
    } else {
        assert(t.len() == e - start);
    }
}

/// The window `[start, e)` between two boundaries is valid UTF-8, and the
/// text from `start` decodes as that window followed by the text from `e`.
proof fn lemma_window_split(b: Seq<u8>, start: int, e: int)
    requires
        valid_utf8(b),
        0 <= start < e <= b.len(),
        is_char_boundary(b, start),
        is_char_boundary(b, e),
    ensures
        valid_utf8(b.subrange(start, e)),
        decode_utf8(b.subrange(start, b.len() as int)) == decode_utf8(b.subrange(start, e))
            + decode_utf8(b.subrange(e, b.len() as int)),
{
    lemma_sub_boundary(b, start, e);
    let t = b.subrange(start, b.len() as int);
    vstd::utf8::valid_utf8_split(t, e - start);
    vstd::utf8::decode_utf8_split(t, e - start);
    assert(t.subrange(0, e - start) =~= b.subrange(start, e));
    assert(t.subrange(e - start, t.len() as int) =~= b.subrange(e, b.len() as int));
}

proof fn lemma_windows_concat(b: Seq<u8>, start: int, target: int)
    requires
        valid_utf8(b),
        0 <= start <= b.len(),
        is_char_boundary(b, start),
        target > 0,
    ensures
        concat_all(decoded_windows(b, windows(b, start, target))) == decode_utf8(
            b.subrange(start, b.len() as int),
        ),
    decreases b.len() - start,
{
    if start == b.len() {
        assert(decoded_windows(b, windows(b, start, target)) =~= Seq::<Seq<char>>::empty());
        assert(b.subrange(start, b.len() as int) =~= Seq::<u8>::empty());
    } else {
        lemma_piece_end(b, start, target);
        let e = piece_end(b, start, target);
        lemma_windows_concat(b, e, target);
        lemma_window_split(b, start, e);
        let w = windows(b, start, target);
        assert(w == seq![(start, e)] + windows(b, e, target));
        let d = decoded_windows(b, w);
        assert(d.skip(1) =~= decoded_windows(b, windows(b, e, target)));
        assert(d[0] == decode_utf8(b.subrange(start, e)));
    }
}

/// Splitting loses nothing: the chunks concatenate back to the text.
pub proof fn lemma_simple_chunks_concat(text: Seq<char>, chunk_size: int)
    requires
        chunk_size >= 0,
    ensures
        concat_all(simple_chunks(text, chunk_size)) == text,
{
    let b = encode_utf8(text);
    vstd::utf8::encode_utf8_valid_utf8(text);
    vstd::utf8::encode_utf8_decode_utf8(text);
    if chunk_size == 0 || b.len() <= chunk_size * 4 {
        assert(concat_all(seq![text]) == text + concat_all(seq![text].skip(1)));
        assert(seq![text].skip(1) =~= Seq::<Seq<char>>::empty());
        assert(text + Seq::<char>::empty() =~= text);
    } else {
        vstd::utf8::is_char_boundary_start_end_of_seq(b);
        lemma_windows_concat(b, 0, chunk_size * 4);
        assert(b.subrange(0, b.len() as int) =~= b);
    }
}

proof fn lemma_windows_pieces(b: Seq<u8>, start: int, target: int)
    requires
        valid_utf8(b),
        0 <= start <= b.len(),
        is_char_boundary(b, start),
        target > 0,
    ensures
        start < b.len() ==> windows(b, start, target).len() > 0,
        forall|k: int| 0 <= k < windows(b, start, target).len() ==> {
            let w = #[trigger] windows(b, start, target)[k];
            &&& start <= w.0 < w.1 <= b.len()
            &&& is_char_boundary(b, w.0)
            &&& is_char_boundary(b, w.1)
            &&& w.1 == piece_end(b, w.0, target)
        },
    decreases b.len() - start,
{
    if start < b.len() {
        lemma_piece_end(b, start, target);
        let e = piece_end(b, start, target);
        lemma_windows_pieces(b, e, target);
        let w = windows(b, start, target);
        assert(w == seq![(start, e)] + windows(b, e, target));
        assert forall|k: int| 0 <= k < w.len() implies {
            let x = #[trigger] w[k];
            &&& start <= x.0 < x.1 <= b.len()
            &&& is_char_boundary(b, x.0)
            &&& is_char_boundary(b, x.1)
            &&& x.1 == piece_end(b, x.0, target)
        } by {
            if k > 0 {
                assert(w[k] == windows(b, e, target)[k - 1]);
            }
        }
    }
}

/// Law: splitting gives at least one piece; the text whole when it fits
/// in `4 * chunk_size` bytes (or the size is zero); and, for a non-empty
/// text, no empty piece.
pub proof fn lemma_simple_chunks_shape(text: Seq<char>, chunk_size: int)
    requires
        chunk_size >= 0,
    ensures
        simple_chunks(text, chunk_size).len() >= 1,
        (chunk_size == 0 || encode_utf8(text).len() <= chunk_size * 4) ==> simple_chunks(text, chunk_size) == seq![text],
        text.len() > 0 ==> forall|k: int| 0 <= k < simple_chunks(text, chunk_size).len() ==> (#[trigger] simple_chunks(text, chunk_size)[k]).len() > 0,
{
    let b = encode_utf8(text);
    vstd::utf8::encode_utf8_valid_utf8(text);
    if chunk_size == 0 || b.len() <= chunk_size * 4 {
        assert(seq![text][0] == text);
    } else {
        vstd::utf8::is_char_boundary_start_end_of_seq(b);
        let t = chunk_size * 4;
        lemma_windows_pieces(b, 0, t);
        let w = windows(b, 0, t);
        let r = simple_chunks(text, chunk_size);
        assert forall|k: int| 0 <= k < r.len() implies (#[trigger] r[k]).len() > 0 by {
            let x = w[k];
            lemma_window_split(b, x.0, x.1);
            let piece = b.subrange(x.0, x.1);
            vstd::utf8::decode_utf8_encode_utf8(piece);
            if r[k].len() == 0 {
                assert(r[k] =~= Seq::<char>::empty());
                assert(encode_utf8(Seq::<char>::empty()) =~= Seq::<u8>::empty());
            }
        }
    }
}

/// Every window but one holding a single wide character stays within the
/// byte target.
pub proof fn lemma_window_size(b: Seq<u8>, start: int, target: int)
    requires
        valid_utf8(b),
        0 <= start < b.len(),
        target > 0,
        is_char_boundary(b, start),
    ensures
        piece_end(b, start, target) - start <= target || boundary_back(
            b,
            start,
            start + target,
        ) == start,
{
    let end0 = if target >= b.len() - start {
        b.len() as int
    } else {
        start + target
    };
    lemma_boundary_back(b, start, end0);
    let end1 = boundary_back(b, start, end0);
    if end1 != start {
        lemma_ws_back(b, start, end1);
    } else if end0 == start + target {
    } else {
        assert(end0 == b.len());
        vstd::utf8::is_char_boundary_start_end_of_seq(b);
    }
}

proof fn lemma_boundary_fwd_none(b: Seq<u8>, from: int, m: int)
    requires
        0 <= from <= m < boundary_fwd(b, from),
    ensures
        !is_char_boundary(b, m),
    decreases m - from,
{
    if m > from {
        lemma_boundary_fwd_none(b, from + 1, m);
    }
}

/// A window longer than the byte target holds one character: no character
/// boundary lies inside it.
proof fn lemma_window_one_char(b: Seq<u8>, start: int, target: int)
    requires
        valid_utf8(b),
        0 <= start < b.len(),
        target > 0,
        is_char_boundary(b, start),
    ensures
        piece_end(b, start, target) - start <= target || forall|m: int| start < m < piece_end(b, start, target) ==> !is_char_boundary(b, m),
{
    lemma_window_size(b, start, target);
    lemma_piece_end(b, start, target);
    let end0 = if target >= b.len() - start {
        b.len() as int
    } else {
        start + target
    };
    lemma_boundary_back(b, start, end0);
    let e = piece_end(b, start, target);
    if e - start > target {
        assert(boundary_back(b, start, start + target) == start);
        assert(end0 == start + target);
        let end2 = boundary_fwd(b, start + 1);
        lemma_boundary_fwd(b, start + 1);
        lemma_ws_back(b, start, end2);
        assert(e <= end2);
        assert forall|m: int| start < m < e implies !is_char_boundary(b, m) by {
            lemma_boundary_fwd_none(b, start + 1, m);
        }
    }
}

/// Law: when the text is split, every window is at most `4 * chunk_size`
/// bytes long or holds a single character (no character boundary inside).
pub proof fn lemma_simple_chunks_sizes(text: Seq<char>, chunk_size: int)
    requires
        chunk_size > 0,
        encode_utf8(text).len() > chunk_size * 4,
    ensures
        forall|k: int| 0 <= k < windows(encode_utf8(text), 0, chunk_size * 4).len() ==> {
            let w = #[trigger] windows(encode_utf8(text), 0, chunk_size * 4)[k];
            ||| w.1 - w.0 <= chunk_size * 4
            ||| forall|m: int| w.0 < m < w.1 ==> !is_char_boundary(encode_utf8(text), m)
        },
{
    let b = encode_utf8(text);
    let t = chunk_size * 4;
    vstd::utf8::encode_utf8_valid_utf8(text);
    vstd::utf8::is_char_boundary_start_end_of_seq(b);
    lemma_windows_pieces(b, 0, t);
    assert forall|k: int| 0 <= k < windows(b, 0, t).len() implies {
        let w = #[trigger] windows(b, 0, t)[k];
        ||| w.1 - w.0 <= t
        ||| forall|m: int| w.0 < m < w.1 ==> !is_char_boundary(b, m)
    } by {
        let w = windows(b, 0, t)[k];
        lemma_window_one_char(b, w.0, t);
    }
}

/// A window between two boundaries with no boundary inside it decodes to
/// exactly one character.
proof fn lemma_one_char_window(b: Seq<u8>, w0: int, w1: int)
    requires
        valid_utf8(b),
        0 <= w0 < w1 <= b.len(),
        is_char_boundary(b, w0),
        is_char_boundary(b, w1),
        forall|m: int| w0 < m < w1 ==> !is_char_boundary(b, m),
    ensures
        decode_utf8(b.subrange(w0, w1)).len() == 1,
{
    lemma_window_split(b, w0, w1);
    let p = b.subrange(w0, w1);
    assert(vstd::utf8::valid_first_scalar(p));
    let k = vstd::utf8::length_of_first_scalar(p);
    assert(1 <= k <= p.len());
    let q = vstd::utf8::pop_first_scalar(p);
    assert(valid_utf8(q));
    if k < p.len() {
        assert(is_char_boundary(q, 0));
        assert(is_char_boundary(p, k));
        vstd::utf8::is_char_boundary_iff_not_is_continuation_byte(p, k);
        vstd::utf8::is_char_boundary_iff_not_is_continuation_byte(b, w0 + k);
        assert(p[k] == b[w0 + k]);
        assert(!is_char_boundary(b, w0 + k));
    }
    assert(q =~= Seq::<u8>::empty());
    assert(decode_utf8(q) =~= Seq::<char>::empty());
}

/// Law: with a positive chunk size, every piece `simple_chunk` returns is
/// at most `4 * chunk_size` bytes long in UTF-8 or is a single character.
pub proof fn lemma_simple_chunk_piece_sizes(text: Seq<char>, chunk_size: int)
    requires
        chunk_size > 0,
    ensures
        forall|k: int|
            0 <= k < simple_chunks(text, chunk_size).len() ==> encode_utf8(
                #[trigger] simple_chunks(text, chunk_size)[k],
            ).len() <= chunk_size * 4 || simple_chunks(text, chunk_size)[k].len() == 1,
{
    let b = encode_utf8(text);
    let t = chunk_size * 4;
    let r = simple_chunks(text, chunk_size);
    if b.len() <= t {
        assert forall|k: int| 0 <= k < r.len() implies encode_utf8(#[trigger] r[k]).len() <= t
            || r[k].len() == 1 by {
            assert(r[k] == text);
        }
    } else {
        vstd::utf8::encode_utf8_valid_utf8(text);
        vstd::utf8::is_char_boundary_start_end_of_seq(b);
        lemma_windows_pieces(b, 0, t);
        lemma_simple_chunks_sizes(text, chunk_size);
        let w = windows(b, 0, t);
        assert forall|k: int| 0 <= k < r.len() implies encode_utf8(#[trigger] r[k]).len() <= t
            || r[k].len() == 1 by {
            let x = w[k];
            lemma_window_split(b, x.0, x.1);
            let piece = b.subrange(x.0, x.1);
            assert(r[k] == decode_utf8(piece));
            vstd::utf8::decode_utf8_encode_utf8(piece);
            if x.1 - x.0 > t {
                lemma_one_char_window(b, x.0, x.1);
            }
        }
    }
}

/// Splits page prose into windows of about `4 * chunk_size` bytes, never
/// inside a character and, when the window holds ASCII whitespace, not
/// inside a word. The overlap argument is accepted and not used.
pub fn simple_chunk(text: &str, chunk_size: usize, chunk_overlap: usize) -> (r: Vec<String>)
    requires
        chunk_size * 4 <= usize::MAX,
    ensures
        views(r@) == simple_chunks(text@, chunk_size as int),
{
    let b = text.as_bytes();
    let n = b.len();
    proof {
        vstd::utf8::encode_utf8_valid_utf8(text@);
        vstd::utf8::is_char_boundary_start_end_of_seq(b@);
    }
    if chunk_size == 0 || n <= chunk_size * 4 {
        let mut r: Vec<String> = Vec::new();
        push_string(&mut r, text.to_owned());
        assert(views(r@) =~= simple_chunks(text@, chunk_size as int));
        return r;
    }
    let target = chunk_size * 4;
    let ghost bs = b@;
    let mut chunks: Vec<String> = Vec::new();
    let mut start: usize = 0;
    while start < n
        invariant
            bs == b@,
            bs == encode_utf8(text@),
            n == bs.len(),
            valid_utf8(bs),
            target == chunk_size * 4,
            target > 0,
            start <= n,
            is_char_boundary(bs, start as int),
            is_char_boundary(bs, n as int),
            views(chunks@) + decoded_windows(bs, windows(bs, start as int, target as int))
                == decoded_windows(bs, windows(bs, 0, target as int)),
        decreases n - start,
    {
        let end0: usize = if target >= n - start {
            n
        } else {
            start + target
        };
        let mut end = end0;
        while end > start && !text.is_char_boundary(end)
            invariant
                start <= end <= end0 <= n,
                bs == b@,
                bs == text.spec_bytes(),
                boundary_back(bs, start as int, end as int) == boundary_back(
                    bs,
                    start as int,
                    end0 as int,
                ),
            decreases end,
        {
            end -= 1;
        }
        let end1 = end;
        if end == start {
            end = start + 1;
            while !text.is_char_boundary(end)
                invariant
                    start + 1 <= end <= n,
                    bs == b@,
                    bs == text.spec_bytes(),
                    valid_utf8(bs),
                    is_char_boundary(bs, n as int),
                    boundary_fwd(bs, end as int) == boundary_fwd(bs, start + 1),
                decreases n - end,
            {
                end += 1;
            }
        }
        let end2 = end;
        let mut e = end;
        while e > start && e < n && !(b[e] == 0x20 || b[e] == 0x09 || b[e] == 0x0a || b[e] == 0x0c
            || b[e] == 0x0d)
            invariant
                start <= e <= end2,
                n == bs.len(),
                bs == b@,
                ws_back(bs, start as int, e as int) == ws_back(bs, start as int, end2 as int),
            decreases e,
        {
            e -= 1;
        }
        if e == start {
            e = end2;
        }
        proof {
            assert(e == piece_end(bs, start as int, target as int));
            lemma_piece_end(bs, start as int, target as int);
            lemma_window_split(bs, start as int, e as int);
        }
        let mut piece_bytes: Vec<u8> = Vec::new();
        let mut k: usize = start;
        while k < e
            invariant
                start <= k <= e <= n,
                n == bs.len(),
                bs == b@,
                piece_bytes@ == bs.subrange(start as int, k as int),
            decreases e - k,
        {
            piece_bytes.push(b[k]);
            k += 1;
            assert(piece_bytes@ =~= bs.subrange(start as int, k as int));
        }
        let piece = utf8_lossy(piece_bytes.as_slice());
        let ghost before = views(chunks@);
        push_string(&mut chunks, piece);
        proof {
            let w = windows(bs, start as int, target as int);
            assert(w == seq![(start as int, e as int)] + windows(bs, e as int, target as int));
            let d = decoded_windows(bs, w);
            assert(d =~= seq![decode_utf8(bs.subrange(start as int, e as int))] + decoded_windows(
                bs,
                windows(bs, e as int, target as int),
            ));
            assert(views(chunks@) + decoded_windows(bs, windows(bs, e as int, target as int))
                =~= before + d);
        }
        start = e;
    }
    proof {
        assert(decoded_windows(bs, windows(bs, n as int, target as int)) =~= Seq::<
            Seq<char>,
        >::empty());
        assert(views(chunks@) =~= decoded_windows(bs, windows(bs, 0, target as int)));
    }
    chunks
}

// ---------------------------------------------------------------------------
// HTML detection
// ---------------------------------------------------------------------------

/// The first 64 bytes of the body after its leading whitespace, when the
/// body is that long and byte 64 starts a character.
pub open spec fn body_prefix(body: Seq<char>) -> Option<Seq<char>> {
    let b = encode_utf8(trim_start_spec(body));
    if b.len() >= 64 && is_char_boundary(b, 64) {
        Some(decode_utf8(b.subrange(0, 64)))
    } else {
        None
    }
}

/// Whether a response is HTML: by its content type, or, when there is
/// none, by an `<html` or `<!doctype html` near the start of the body.
pub open spec fn looks_like_html(content_type: Seq<char>, body: Seq<char>) -> bool {
    let ct = ascii_lower_seq(content_type);
    contains_spec(ct, "text/html"@) || contains_spec(ct, "application/xhtml+xml"@) || (ct.len() == 0
        && match body_prefix(body) {
        Some(p) => contains_spec(ascii_lower_seq(p), "<html"@) || contains_spec(
            ascii_lower_seq(p),
            "<!doctype html"@,
        ),
        None => false,
    })
}

/// Whether a fetched response holds an HTML page.
pub fn is_html_response(content_type: &str, body: &str) -> (r: bool)
    ensures
        r == looks_like_html(content_type@, body@),
{
    let ct = ascii_lower_chars(&chars_of(content_type));
    if contains_chars(&ct, &chars_of("text/html")) || contains_chars(
        &ct,
        &chars_of("application/xhtml+xml"),
    ) {
        return true;
    }
    if ct.len() != 0 {
        return false;
    }
    let bv = chars_of(body);
    let i = trim_start_pos(&bv);
    proof {
        crate::text::lemma_trim_start_index_bounds(bv@);
    }
    let trimmed = string_of_range(&bv, i, bv.len());
    let ts = trimmed.as_str();
    let tb = ts.as_bytes();
    proof {
        assert(trimmed@ == trim_start_spec(body@));
        vstd::utf8::encode_utf8_valid_utf8(ts@);
    }
    if tb.len() < 64 || !ts.is_char_boundary(64) {
        return false;
    }
    let mut pb: Vec<u8> = Vec::new();
    let mut k: usize = 0;
    while k < 64
        invariant
            k <= 64,
            64 <= tb@.len(),
            pb@ == tb@.subrange(0, k as int),
        decreases 64 - k,
    {
        pb.push(tb[k]);
        k += 1;
        assert(pb@ =~= tb@.subrange(0, k as int));
    }
    proof {
        vstd::utf8::valid_utf8_split(tb@, 64);
    }
    let prefix = utf8_lossy(pb.as_slice());
    let pl = ascii_lower_chars(&chars_of(prefix.as_str()));
    contains_chars(&pl, &chars_of("<html")) || contains_chars(&pl, &chars_of("<!doctype html"))
}

} // verus!
