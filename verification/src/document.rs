//! Document chunks, the unit of non-code ingestion (uploaded documents,
//! website sections, code turned into documents): their metadata, their
//! payload and embedding text, and the splits that keep every chunk under
//! the size limit.
use vstd::prelude::*;
use crate::text::{concat_str, extend_str, chars_of, string_of};
use crate::seqtext::{join, join_strings, views, push_string};
use crate::ingest::{hard_split_chars, char_pieces};
use crate::code_chunk::{CodeChunk, now_iso};
use crate::metadata::{entries_view, chunk_meta};
use crate::languages::{path_extension_of, path_extension};
use crate::sql::{to_lowercase, lower_spec, new_uuid_string};

verus! {

// ---------------------------------------------------------------------------
// Metadata values
// ---------------------------------------------------------------------------

/// A metadata value as the contracts see it.
pub enum MetaVal {
    Text(Seq<char>),
    Int(int),
    Json(Seq<char>),
}

/// A metadata value: a JSON string, a JSON integer, or any other JSON
/// value kept as its JSON text.
#[derive(Debug, Clone, PartialEq)]
pub enum MetaValue {
    Text(String),
    Int(i64),
    Json(String),
}

impl View for MetaValue {
    type V = MetaVal;

    open spec fn view(&self) -> MetaVal {
        match self {
            MetaValue::Text(s) => MetaVal::Text(s@),
            MetaValue::Int(n) => MetaVal::Int(*n as int),
            MetaValue::Json(s) => MetaVal::Json(s@),
        }
    }
}

impl MetaValue {
    /// A copy of the value.
    pub fn copied(&self) -> (r: MetaValue)
        ensures
            r@ == self@,
    {
        match self {
            MetaValue::Text(s) => MetaValue::Text(s.clone()),
            MetaValue::Int(n) => MetaValue::Int(*n),
            MetaValue::Json(s) => MetaValue::Json(s.clone()),
        }
    }
}

/// Keys and values of a metadata list, in order.
pub open spec fn meta_view(m: Seq<(String, MetaValue)>) -> Seq<(Seq<char>, MetaVal)> {
    Seq::new(m.len(), |i: int| (m[i].0@, m[i].1@))
}

/// The index of the first entry under `key`, or the length when none is.
pub open spec fn key_index(m: Seq<(Seq<char>, MetaVal)>, key: Seq<char>, i: int) -> int
    decreases m.len() - i,
{
    if i < 0 || i >= m.len() {
        m.len() as int
    } else if m[i].0 == key {
        i
    } else {
        key_index(m, key, i + 1)
    }
}

pub(crate) proof fn lemma_key_index_bounds(m: Seq<(Seq<char>, MetaVal)>, key: Seq<char>, i: int)
    requires
        0 <= i <= m.len(),
    ensures
        i <= key_index(m, key, i) <= m.len(),
        key_index(m, key, i) < m.len() ==> m[key_index(m, key, i)].0 == key,
        forall|j: int| i <= j < key_index(m, key, i) ==> m[j].0 != key,
    decreases m.len() - i,
{
    if i < m.len() && m[i].0 != key {
        lemma_key_index_bounds(m, key, i + 1);
    }
}

/// A map's insert on a metadata list: the value replaces the one under
/// `key` when the key is there, and is appended under it otherwise.
pub open spec fn meta_insert(m: Seq<(Seq<char>, MetaVal)>, key: Seq<char>, value: MetaVal) -> Seq<(Seq<char>, MetaVal)> {
    let i = key_index(m, key, 0);
    if i < m.len() {
        m.update(i, (key, value))
    } else {
        m.push((key, value))
    }
}

/// The list built by inserting the entries one after another.
pub open spec fn meta_insert_all(m: Seq<(Seq<char>, MetaVal)>, entries: Seq<(Seq<char>, MetaVal)>) -> Seq<(Seq<char>, MetaVal)>
    decreases entries.len(),
{
    if entries.len() == 0 {
        m
    } else {
        meta_insert(meta_insert_all(m, entries.drop_last()), entries.last().0, entries.last().1)
    }
}

/// Text values under the given keys.
pub open spec fn text_entries(e: Seq<(Seq<char>, Seq<char>)>) -> Seq<(Seq<char>, MetaVal)> {
    Seq::new(e.len(), |i: int| (e[i].0, MetaVal::Text(e[i].1)))
}

/// Inserts `value` under `key`, replacing the value already there.
pub fn meta_insert_exec(m: &mut Vec<(String, MetaValue)>, key: &str, value: MetaValue)
    ensures
        meta_view(final(m)@) == meta_insert(meta_view(old(m)@), key@, value@),
{
    let ghost mv = meta_view(m@);
    let mut i: usize = 0;
    proof {
        lemma_key_index_bounds(mv, key@, 0);
    }
    while i < m.len()
        invariant
            mv == meta_view(m@),
            mv == meta_view(old(m)@),
            i <= m.len(),
            key_index(mv, key@, i as int) == key_index(mv, key@, 0),
        decreases m.len() - i,
    {
        if crate::text::str_eq(m[i].0.as_str(), key) {
            assert(mv[i as int].0 == key@);
            assert(key_index(mv, key@, i as int) == i);
            m.set(i, (key.to_owned(), value));
            assert(meta_view(m@) =~= mv.update(i as int, (key@, value@)));
            return;
        }
        i += 1;
    }
    let ghost before = m@;
    m.push((key.to_owned(), value));
    assert(meta_view(m@) =~= mv.push((key@, value@)));
}

// ---------------------------------------------------------------------------
// Document chunks
// ---------------------------------------------------------------------------

/// Characters a document chunk may hold before it is split.
pub const MAX_CHUNK_CHARS: usize = 6000;

/// A chunk of a document, with its position and metadata.
#[derive(Debug, Clone, PartialEq)]
pub struct DocumentChunk {
    pub id: String,
    pub file_name: String,
    pub content: String,
    pub doc_type: String,
    pub chunk_index: i64,
    pub page: Option<i64>,
    pub metadata: Vec<(String, MetaValue)>,
    pub created_at: String,
}

/// The decimal digit `d` (0 to 9).
pub open spec fn digit_char(d: int) -> char {
    (d + 48) as char
}

/// The decimal digits of `n`, most significant first.
pub open spec fn digits(n: nat) -> Seq<char>
    decreases n,
{
    if n < 10 {
        seq![digit_char(n as int)]
    } else {
        digits(n / 10).push(digit_char((n % 10) as int))
    }
}

/// `i64::to_string`: a minus sign for negative values, then the digits.
pub open spec fn decimal(n: int) -> Seq<char> {
    if n < 0 {
        seq!['-'] + digits((-n) as nat)
    } else {
        digits(n as nat)
    }
}

pub(crate) fn digits_string(n: u64) -> (r: Vec<char>)
    ensures
        r@ == digits(n as nat),
{
    let mut m = n;
    let mut rev: Vec<char> = Vec::new();
    let d = (m % 10) as u8;
    rev.push((d + 48u8) as char);
    m = m / 10;
    assert(n < 10 ==> digits(n as nat) == rev@.reverse());
    assert(n >= 10 ==> digits(n as nat) == digits(m as nat) + rev@.reverse());
    while m > 0
        invariant
            m > 0 ==> digits(n as nat) == digits(m as nat) + rev@.reverse(),
            m == 0 ==> digits(n as nat) == rev@.reverse(),
        decreases m,
    {
        let ghost before = rev@;
        let d = (m % 10) as u8;
        rev.push((d + 48u8) as char);
        assert(rev@.reverse() =~= seq![digit_char((m % 10) as int)] + before.reverse());
        m = m / 10;
    }
    let mut out: Vec<char> = Vec::new();
    let mut k = rev.len();
    while k > 0
        invariant
            k <= rev.len(),
            out@ == rev@.reverse().take((rev.len() - k) as int),
        decreases k,
    {
        k -= 1;
        out.push(rev[k]);
        assert(rev@.reverse().take((rev.len() - k) as int) =~= rev@.reverse().take((rev.len() - k - 1) as int).push(rev@[k as int]));
    }
    assert(rev@.reverse().take(rev.len() as int) =~= rev@.reverse());
    out
}

/// `n` in decimal, as `i64::to_string` writes it.
pub fn decimal_string(n: i64) -> (r: String)
    ensures
        r@ == decimal(n as int),
{
    if n < 0 {
        let mag: u64 = if n == i64::MIN {
            9223372036854775808u64
        } else {
            (-n) as u64
        };
        let mut v: Vec<char> = Vec::new();
        v.push('-');
        let d = digits_string(mag);
        crate::text::extend_all(&mut v, &d);
        assert(v@ =~= seq!['-'] + digits((-n) as nat));
        string_of(&v)
    } else {
        let d = digits_string(n as u64);
        string_of(&d)
    }
}

/// The lines of a document chunk's embedding text.
pub open spec fn doc_embedding_lines(c: DocumentChunk) -> Seq<Seq<char>> {
    seq!["File_name: "@ + c.file_name@, "Type: "@ + c.doc_type@] + match c.page {
        Some(p) => seq!["Page: "@ + decimal(p as int)],
        None => Seq::empty(),
    } + seq!["Content:\n"@ + c.content@]
}

/// The payload of a document chunk, in insertion order: its fields, the
/// page when there is one, then its own metadata.
pub open spec fn doc_meta(c: DocumentChunk) -> Seq<(Seq<char>, MetaVal)> {
    seq![
        ("file_name"@, MetaVal::Text(c.file_name@)),
        ("doc_type"@, MetaVal::Text(c.doc_type@)),
        ("chunk_index"@, MetaVal::Int(c.chunk_index as int)),
        ("content"@, MetaVal::Text(c.content@)),
        ("created_at"@, MetaVal::Text(c.created_at@)),
    ] + match c.page {
        Some(p) => seq![("page"@, MetaVal::Int(p as int))],
        None => Seq::empty(),
    } + meta_view(c.metadata@)
}

/// Appends copies of the entries of `src` to `dst`.
fn append_meta(dst: &mut Vec<(String, MetaValue)>, src: &Vec<(String, MetaValue)>)
    ensures
        meta_view(final(dst)@) == meta_view(old(dst)@) + meta_view(src@),
{
    let ghost start = meta_view(dst@);
    let mut i: usize = 0;
    while i < src.len()
        invariant
            i <= src.len(),
            meta_view(dst@) == start + meta_view(src@).take(i as int),
        decreases src.len() - i,
    {
        let ghost before = meta_view(dst@);
        let e = (src[i].0.clone(), src[i].1.copied());
        dst.push(e);
        assert(meta_view(dst@) =~= before.push((src@[i as int].0@, src@[i as int].1@)));
        assert(meta_view(src@).take(i + 1) =~= meta_view(src@).take(i as int).push(
            (src@[i as int].0@, src@[i as int].1@),
        ));
        i += 1;
    }
    assert(meta_view(src@).take(src.len() as int) =~= meta_view(src@));
}

/// Copies of the entries of a metadata list.
pub(crate) fn copy_meta(src: &Vec<(String, MetaValue)>) -> (r: Vec<(String, MetaValue)>)
    ensures
        meta_view(r@) == meta_view(src@),
{
    let mut r: Vec<(String, MetaValue)> = Vec::new();
    append_meta(&mut r, src);
    assert(meta_view(r@) =~= meta_view(src@));
    r
}

impl DocumentChunk {
    /// A chunk with no page and no metadata, stamped with the current time.
    pub fn new(id: &str, file_name: &str, content: &str, doc_type: &str, chunk_index: i64) -> (c: Self)
        ensures
            c.id@ == id@,
            c.file_name@ == file_name@,
            c.content@ == content@,
            c.doc_type@ == doc_type@,
            c.chunk_index == chunk_index,
            c.page is None,
            c.metadata@.len() == 0,
    {
        DocumentChunk {
            id: id.to_owned(),
            file_name: file_name.to_owned(),
            content: content.to_owned(),
            doc_type: doc_type.to_owned(),
            chunk_index,
            page: None,
            metadata: Vec::new(),
            created_at: now_iso(),
        }
    }

    /// Sets the metadata value under `key`, replacing the one already there.
    pub fn insert_metadata(&mut self, key: &str, value: MetaValue)
        ensures
            meta_view(final(self).metadata@) == meta_insert(meta_view(old(self).metadata@), key@, value@),
            final(self).id == old(self).id,
            final(self).file_name == old(self).file_name,
            final(self).content == old(self).content,
            final(self).doc_type == old(self).doc_type,
            final(self).chunk_index == old(self).chunk_index,
            final(self).page == old(self).page,
            final(self).created_at == old(self).created_at,
    {
        meta_insert_exec(&mut self.metadata, key, value);
    }

    /// The payload stored with the chunk, in insertion order: file name,
    /// type, index, content and creation time, the page when there is one,
    /// then the chunk's own metadata (which wins over the fields before it).
    pub fn chunk_metadata(&self) -> (m: Vec<(String, MetaValue)>)
        ensures
            meta_view(m@) == doc_meta(*self),
    {
        let mut m: Vec<(String, MetaValue)> = Vec::new();
        m.push(("file_name".to_owned(), MetaValue::Text(self.file_name.clone())));
        m.push(("doc_type".to_owned(), MetaValue::Text(self.doc_type.clone())));
        m.push(("chunk_index".to_owned(), MetaValue::Int(self.chunk_index)));
        m.push(("content".to_owned(), MetaValue::Text(self.content.clone())));
        m.push(("created_at".to_owned(), MetaValue::Text(self.created_at.clone())));
        match self.page {
            Some(p) => {
                m.push(("page".to_owned(), MetaValue::Int(p)));
            },
            None => {},
        }
        let ghost head = meta_view(m@);
        append_meta(&mut m, &self.metadata);
        assert(meta_view(m@) =~= doc_meta(*self));
        m
    }

    /// The text embedded for the chunk: file name, type, page (when known)
    /// and content, one per line.
    pub fn chunk_embedding_text(&self) -> (r: String)
        ensures
            r@ == join(doc_embedding_lines(*self), "\n"@),
    {
        let mut parts: Vec<String> = Vec::new();
        push_string(&mut parts, concat_str("File_name: ", self.file_name.as_str()));
        push_string(&mut parts, concat_str("Type: ", self.doc_type.as_str()));
        match self.page {
            Some(p) => {
                let d = decimal_string(p);
                push_string(&mut parts, concat_str("Page: ", d.as_str()));
            },
            None => {},
        }
        push_string(&mut parts, concat_str("Content:\n", self.content.as_str()));
        assert(views(parts@) =~= doc_embedding_lines(*self));
        join_strings(&parts, "\n")
    }
}

// ---------------------------------------------------------------------------
// Size limit
// ---------------------------------------------------------------------------

/// Whether a chunk's content fits the size limit.
pub open spec fn fits(c: DocumentChunk) -> bool {
    c.content@.len() <= MAX_CHUNK_CHARS
}

/// `child` carries `parent` over with a fresh 36-character id, `content`
/// as its content and its index advanced by `offset`.
pub open spec fn is_child(child: DocumentChunk, parent: DocumentChunk, content: Seq<char>, offset: int) -> bool {
    &&& crate::sql::is_uuid_v4_text(child.id@, true)
    &&& child.file_name@ == parent.file_name@
    &&& child.content@ == content
    &&& child.doc_type@ == parent.doc_type@
    &&& child.chunk_index == parent.chunk_index + offset
    &&& child.page == parent.page
    &&& meta_view(child.metadata@) == meta_view(parent.metadata@)
    &&& child.created_at@ == parent.created_at@
}

/// Whether the indices of `n` pieces of a chunk fit in an `i64`.
pub open spec fn index_room(c: DocumentChunk, n: int) -> bool {
    n - 1 <= i64::MAX && c.chunk_index + n - 1 <= i64::MAX
}

fn child_of(parent: &DocumentChunk, content: String, offset: usize) -> (c: DocumentChunk)
    requires
        offset <= i64::MAX,
        parent.chunk_index + offset <= i64::MAX,
    ensures
        is_child(c, *parent, content@, offset as int),
{
    DocumentChunk {
        id: new_uuid_string(),
        file_name: parent.file_name.clone(),
        content,
        doc_type: parent.doc_type.clone(),
        chunk_index: parent.chunk_index + offset as i64,
        page: parent.page,
        metadata: copy_meta(&parent.metadata),
        created_at: parent.created_at.clone(),
    }
}

/// The pieces of an oversized chunk's content.
pub open spec fn oversize_pieces(c: DocumentChunk) -> Seq<Seq<char>> {
    char_pieces(c.content@, MAX_CHUNK_CHARS as nat)
}

/// How many chunks a chunk becomes under the size limit.
pub open spec fn enforced_count(c: DocumentChunk) -> nat {
    if fits(c) {
        1
    } else {
        oversize_pieces(c).len()
    }
}

/// For each output chunk of `enforce_max_chunk_chars`, the index of the
/// input chunk it comes from and its piece number.
pub open spec fn enforce_plan(cs: Seq<DocumentChunk>) -> Seq<(int, int)>
    decreases cs.len(),
{
    if cs.len() == 0 {
        Seq::empty()
    } else {
        let j = cs.len() - 1;
        enforce_plan(cs.drop_last()) + Seq::new(enforced_count(cs[j]), |i: int| (j as int, i))
    }
}

/// Output chunk `out` is piece `i` of `c` under the size limit: `c` itself
/// when it fits, otherwise the `i`-th piece as a child of `c`.
pub open spec fn enforced_piece(out: DocumentChunk, c: DocumentChunk, i: int) -> bool {
    if fits(c) {
        out == c
    } else {
        is_child(out, c, oversize_pieces(c)[i], i)
    }
}

proof fn lemma_enforce_plan_step(all: Seq<DocumentChunk>, d: int)
    requires
        0 <= d < all.len(),
    ensures
        enforce_plan(all.take(d + 1)) == enforce_plan(all.take(d)) + Seq::new(
            enforced_count(all[d]),
            |i: int| (d, i),
        ),
{
    assert(all.take(d + 1).drop_last() =~= all.take(d));
}

proof fn lemma_enforce_plan_indices(cs: Seq<DocumentChunk>)
    ensures
        forall|k: int| 0 <= k < enforce_plan(cs).len() ==> 0 <= (#[trigger] enforce_plan(cs)[k]).0 < cs.len()
            && 0 <= enforce_plan(cs)[k].1 < enforced_count(cs[enforce_plan(cs)[k].0]),
    decreases cs.len(),
{
    if cs.len() > 0 {
        lemma_enforce_plan_indices(cs.drop_last());
        let p = enforce_plan(cs.drop_last());
        assert forall|k: int| 0 <= k < enforce_plan(cs).len() implies 0 <= (#[trigger] enforce_plan(cs)[k]).0 < cs.len()
            && 0 <= enforce_plan(cs)[k].1 < enforced_count(cs[enforce_plan(cs)[k].0]) by {
            if k < p.len() {
                assert(enforce_plan(cs)[k] == p[k]);
                assert(cs.drop_last()[p[k].0] == cs[p[k].0]);
            }
        }
    }
}

fn char_count(s: &str) -> (n: usize)
    ensures
        n == s@.len(),
{
    let v = chars_of(s);
    v.len()
}

/// Splits every chunk whose content exceeds `MAX_CHUNK_CHARS` characters
/// into pieces of at most that many: each piece becomes a copy of the chunk
/// with a fresh id and its index advanced by the piece number; chunks that
/// fit are kept as they are.
pub fn enforce_max_chunk_chars(chunks: Vec<DocumentChunk>) -> (r: Vec<DocumentChunk>)
    requires
        forall|j: int| 0 <= j < chunks@.len() ==> index_room(#[trigger] chunks@[j], enforced_count(chunks@[j]) as int),
    ensures
        r@.len() == enforce_plan(chunks@).len(),
        forall|k: int| 0 <= k < r@.len() ==> enforced_piece(
            #[trigger] r@[k],
            chunks@[enforce_plan(chunks@)[k].0],
            enforce_plan(chunks@)[k].1,
        ),
{
    let ghost all = chunks@;
    let mut rest = chunks;
    let mut rev: Vec<DocumentChunk> = Vec::new();
    while rest.len() > 0
        invariant
            rest@ + rev@.reverse() == all,
        decreases rest@.len(),
    {
        let ghost before = rev@;
        let c = rest.pop().unwrap();
        rev.push(c);
        assert(rev@.reverse() =~= seq![c] + before.reverse());
    }
    assert(rest@ =~= Seq::<DocumentChunk>::empty());
    assert(rev@.reverse() =~= all);
    let mut out: Vec<DocumentChunk> = Vec::new();
    let ghost mut done: int = 0;
    while rev.len() > 0
        invariant
            0 <= done <= all.len(),
            all.take(done) + rev@.reverse() == all,
            forall|j: int| 0 <= j < all.len() ==> index_room(#[trigger] all[j], enforced_count(all[j]) as int),
            out@.len() == enforce_plan(all.take(done)).len(),
            forall|k: int| 0 <= k < out@.len() ==> enforced_piece(
                #[trigger] out@[k],
                all[enforce_plan(all.take(done))[k].0],
                enforce_plan(all.take(done))[k].1,
            ),
        decreases rev@.len(),
    {
        let ghost before_rev = rev@;
        let c = rev.pop().unwrap();
        proof {
            assert(before_rev.reverse() =~= seq![c] + rev@.reverse());
            assert(all[done] == c) by {
                assert((all.take(done) + before_rev.reverse())[done] == c);
            }
            lemma_enforce_plan_step(all, done);
            lemma_enforce_plan_indices(all.take(done));
        }
        let ghost plan0 = enforce_plan(all.take(done));
        let ghost out0 = out@;
        assert forall|k: int| 0 <= k < out0.len() implies enforced_piece(
            #[trigger] out0[k],
            all[plan0[k].0],
            plan0[k].1,
        ) by {}
        if char_count(c.content.as_str()) <= MAX_CHUNK_CHARS {
            out.push(c);
            assert forall|k: int| 0 <= k < out@.len() implies enforced_piece(
                #[trigger] out@[k],
                all[enforce_plan(all.take(done + 1))[k].0],
                enforce_plan(all.take(done + 1))[k].1,
            ) by {
                if k < out0.len() {
                    assert(out@[k] == out0[k]);
                    assert(enforce_plan(all.take(done + 1))[k] == plan0[k]);
                } else {
                    assert(enforce_plan(all.take(done + 1))[k] == (done, 0int));
                }
            }
        } else {
            let pieces = hard_split_chars(c.content.as_str(), MAX_CHUNK_CHARS);
            let mut i: usize = 0;
            while i < pieces.len()
                invariant
                    i <= pieces.len(),
                    views(pieces@) == oversize_pieces(c),
                    !fits(c),
                    index_room(c, enforced_count(c) as int),
                    out@.len() == out0.len() + i,
                    forall|k: int| 0 <= k < out0.len() ==> #[trigger] out@[k] == out0[k],
                    forall|k: int| 0 <= k < i ==> is_child(#[trigger] out@[out0.len() + k], c, oversize_pieces(c)[k], k),
                decreases pieces.len() - i,
            {
                assert(views(pieces@)[i as int] == pieces@[i as int]@);
                let child = child_of(&c, pieces[i].clone(), i);
                let ghost before = out@;
                out.push(child);
                assert forall|k: int| 0 <= k < i + 1 implies is_child(#[trigger] out@[out0.len() + k], c, oversize_pieces(c)[k], k) by {
                    if k < i {
                        assert(out@[out0.len() + k] == before[out0.len() + k]);
                    }
                }
                i += 1;
            }
            assert forall|k: int| 0 <= k < out@.len() implies enforced_piece(
                #[trigger] out@[k],
                all[enforce_plan(all.take(done + 1))[k].0],
                enforce_plan(all.take(done + 1))[k].1,
            ) by {
                if k < out0.len() {
                    assert(out@[k] == out0[k]);
                    assert(enforce_plan(all.take(done + 1))[k] == plan0[k]);
                } else {
                    let i0 = k - out0.len();
                    assert(enforce_plan(all.take(done + 1))[k] == (done, i0));
                    assert(out@[out0.len() + i0] == out@[k]);
                }
            }
        }
        proof {
            done = done + 1;
            assert(all.take(done) =~= all.take(done - 1).push(c));
            assert(all.take(done) + rev@.reverse() =~= all);
        }
    }
    assert(all.take(done) =~= all);
    out
}

// ---------------------------------------------------------------------------
// Splitting with a text splitter's output
// ---------------------------------------------------------------------------

/// The texts a chunk is cut into: the splitter's parts, or the whole
/// content when the splitter gave none.
pub open spec fn chunk_subs(c: DocumentChunk, parts: Seq<Seq<char>>) -> Seq<Seq<char>> {
    if parts.len() == 0 {
        seq![c.content@]
    } else {
        parts
    }
}

/// The pieces of at most `MAX_CHUNK_CHARS` characters of each text, in order.
pub open spec fn flat_pieces(subs: Seq<Seq<char>>) -> Seq<Seq<char>>
    decreases subs.len(),
{
    if subs.len() == 0 {
        Seq::empty()
    } else {
        flat_pieces(subs.drop_last()) + char_pieces(subs.last(), MAX_CHUNK_CHARS as nat)
    }
}

/// The contents of the chunks one chunk becomes.
pub open spec fn split_pieces(c: DocumentChunk, parts: Seq<Seq<char>>) -> Seq<Seq<char>> {
    flat_pieces(chunk_subs(c, parts))
}

/// For each output chunk of `split_document_chunks`, the index of the input
/// chunk it comes from and its piece number.
pub open spec fn split_plan(cs: Seq<DocumentChunk>, ps: Seq<Seq<Seq<char>>>) -> Seq<(int, int)>
    decreases cs.len(),
{
    if cs.len() == 0 {
        Seq::empty()
    } else {
        let j = cs.len() - 1;
        split_plan(cs.drop_last(), ps) + Seq::new(split_pieces(cs[j], ps[j]).len(), |i: int| (j as int, i))
    }
}

pub open spec fn parts_views(ps: Seq<Vec<String>>) -> Seq<Seq<Seq<char>>> {
    Seq::new(ps.len(), |i: int| views(ps[i]@))
}

proof fn lemma_split_plan_step(cs: Seq<DocumentChunk>, ps: Seq<Seq<Seq<char>>>, d: int)
    requires
        0 <= d < cs.len(),
    ensures
        split_plan(cs.take(d + 1), ps) == split_plan(cs.take(d), ps) + Seq::new(
            split_pieces(cs[d], ps[d]).len(),
            |i: int| (d, i),
        ),
{
    assert(cs.take(d + 1).drop_last() =~= cs.take(d));
}

proof fn lemma_split_plan_indices(cs: Seq<DocumentChunk>, ps: Seq<Seq<Seq<char>>>)
    ensures
        forall|k: int| 0 <= k < split_plan(cs, ps).len() ==> 0 <= (#[trigger] split_plan(cs, ps)[k]).0 < cs.len(),
    decreases cs.len(),
{
    if cs.len() > 0 {
        lemma_split_plan_indices(cs.drop_last(), ps);
        let p = split_plan(cs.drop_last(), ps);
        assert forall|k: int| 0 <= k < split_plan(cs, ps).len() implies 0 <= (#[trigger] split_plan(cs, ps)[k]).0 < cs.len() by {
            if k < p.len() {
                assert(split_plan(cs, ps)[k] == p[k]);
            }
        }
    }
}

/// Cuts every chunk into the parts a text splitter made of its content
/// (`parts[j]` for chunk `j`; the whole content when there are none), then
/// each part into pieces of at most `MAX_CHUNK_CHARS` characters. Every
/// piece becomes a copy of its chunk with a fresh id and the chunk's index
/// advanced by the piece's number within the chunk.
pub fn split_document_chunks(chunks: Vec<DocumentChunk>, parts: &Vec<Vec<String>>) -> (r: Vec<DocumentChunk>)
    requires
        parts@.len() == chunks@.len(),
        forall|j: int| 0 <= j < chunks@.len() ==> index_room(
            #[trigger] chunks@[j],
            split_pieces(chunks@[j], parts_views(parts@)[j]).len() as int,
        ),
    ensures
        r@.len() == split_plan(chunks@, parts_views(parts@)).len(),
        forall|k: int| 0 <= k < r@.len() ==> is_child(
            #[trigger] r@[k],
            chunks@[split_plan(chunks@, parts_views(parts@))[k].0],
            split_pieces(
                chunks@[split_plan(chunks@, parts_views(parts@))[k].0],
                parts_views(parts@)[split_plan(chunks@, parts_views(parts@))[k].0],
            )[split_plan(chunks@, parts_views(parts@))[k].1],
            split_plan(chunks@, parts_views(parts@))[k].1,
        ),
{
    let ghost ps = parts_views(parts@);
    let ghost all = chunks@;
    let mut out: Vec<DocumentChunk> = Vec::new();
    let mut j: usize = 0;
    while j < chunks.len()
        invariant
            j <= chunks@.len(),
            all == chunks@,
            ps == parts_views(parts@),
            parts@.len() == chunks@.len(),
            forall|q: int| 0 <= q < all.len() ==> index_room(#[trigger] all[q], split_pieces(all[q], ps[q]).len() as int),
            out@.len() == split_plan(all.take(j as int), ps).len(),
            forall|k: int| 0 <= k < out@.len() ==> is_child(
                #[trigger] out@[k],
                all[split_plan(all.take(j as int), ps)[k].0],
                split_pieces(all[split_plan(all.take(j as int), ps)[k].0], ps[split_plan(all.take(j as int), ps)[k].0])[split_plan(all.take(j as int), ps)[k].1],
                split_plan(all.take(j as int), ps)[k].1,
            ),
        decreases chunks@.len() - j,
    {
        let c = &chunks[j];
        proof {
            lemma_split_plan_step(all, ps, j as int);
            lemma_split_plan_indices(all.take(j as int), ps);
        }
        let ghost plan0 = split_plan(all.take(j as int), ps);
        let ghost out0 = out@;
        let ghost pieces_all = split_pieces(*c, ps[j as int]);
        let mut subs: Vec<String> = Vec::new();
        if parts[j].len() == 0 {
            push_string(&mut subs, c.content.clone());
        } else {
            crate::seqtext::append_strings(&mut subs, &parts[j]);
        }
        assert(views(subs@) =~= chunk_subs(*c, ps[j as int]));
        let ghost subs_v = views(subs@);
        let base = out.len();
        let mut local: usize = 0;
        let mut s: usize = 0;
        while s < subs.len()
            invariant
                s <= subs.len(),
                base == out0.len(),
                subs_v == views(subs@),
                pieces_all == flat_pieces(subs_v),
                index_room(*c, pieces_all.len() as int),
                local == flat_pieces(subs_v.take(s as int)).len(),
                out@.len() == out0.len() + local,
                forall|k: int| 0 <= k < out0.len() ==> #[trigger] out@[k] == out0[k],
                forall|k: int| 0 <= k < local ==> is_child(#[trigger] out@[out0.len() + k], *c, pieces_all[k], k),
            decreases subs.len() - s,
        {
            proof {
                assert(subs_v.take(s + 1).drop_last() =~= subs_v.take(s as int));
                assert(subs_v.take(s + 1).last() == subs@[s as int]@);
                lemma_flat_prefix(subs_v, s as int + 1);
            }
            let pieces = hard_split_chars(subs[s].as_str(), MAX_CHUNK_CHARS);
            let ghost local0 = local;
            let ghost outs = out@;
            let mut i: usize = 0;
            while i < pieces.len()
                invariant
                    i <= pieces.len(),
                    base == out0.len(),
                    views(pieces@) == char_pieces(subs_v[s as int], MAX_CHUNK_CHARS as nat),
                    pieces_all == flat_pieces(subs_v),
                    flat_pieces(subs_v.take(s + 1)) == flat_pieces(subs_v.take(s as int)) + char_pieces(subs_v[s as int], MAX_CHUNK_CHARS as nat),
                    flat_pieces(subs_v.take(s + 1)).len() <= pieces_all.len(),
                    forall|k: int| 0 <= k < flat_pieces(subs_v.take(s + 1)).len() ==> #[trigger] flat_pieces(subs_v.take(s + 1))[k] == pieces_all[k],
                    index_room(*c, pieces_all.len() as int),
                    local0 == flat_pieces(subs_v.take(s as int)).len(),
                    local == local0 + i,
                    out@.len() == out0.len() + local,
                    outs.len() == out0.len() + local0,
                    forall|k: int| 0 <= k < outs.len() ==> #[trigger] out@[k] == outs[k],
                    forall|k: int| 0 <= k < out0.len() ==> #[trigger] outs[k] == out0[k],
                    forall|k: int| 0 <= k < local0 ==> is_child(#[trigger] outs[out0.len() + k], *c, pieces_all[k], k),
                    forall|k: int| local0 <= k < local ==> is_child(#[trigger] out@[out0.len() + k], *c, pieces_all[k], k),
                decreases pieces.len() - i,
            {
                assert(views(pieces@)[i as int] == pieces@[i as int]@);
                assert(flat_pieces(subs_v.take(s + 1))[local as int] == pieces_all[local as int]);
                let child = child_of(c, pieces[i].clone(), local);
                out.push(child);
                local = out.len() - base;
                i += 1;
            }
            assert forall|k: int| 0 <= k < local implies is_child(#[trigger] out@[out0.len() + k], *c, pieces_all[k], k) by {
                if k < local0 {
                    assert(out@[out0.len() + k] == outs[out0.len() + k]);
                }
            }
            s += 1;
        }
        assert(subs_v.take(subs.len() as int) =~= subs_v);
        assert forall|k: int| 0 <= k < out@.len() implies is_child(
            #[trigger] out@[k],
            all[split_plan(all.take(j + 1), ps)[k].0],
            split_pieces(all[split_plan(all.take(j + 1), ps)[k].0], ps[split_plan(all.take(j + 1), ps)[k].0])[split_plan(all.take(j + 1), ps)[k].1],
            split_plan(all.take(j + 1), ps)[k].1,
        ) by {
            if k < out0.len() {
                assert(out@[k] == out0[k]);
                assert(split_plan(all.take(j + 1), ps)[k] == plan0[k]);
            } else {
                let i0 = k - out0.len();
                assert(split_plan(all.take(j + 1), ps)[k] == (j as int, i0));
                assert(out@[out0.len() + i0] == out@[k]);
            }
        }
        j += 1;
    }
    assert(all.take(chunks.len() as int) =~= all);
    out
}

/// The pieces of a prefix of the texts are a prefix of all the pieces.
proof fn lemma_flat_prefix(subs: Seq<Seq<char>>, n: int)
    requires
        0 <= n <= subs.len(),
    ensures
        flat_pieces(subs.take(n)).len() <= flat_pieces(subs).len(),
        forall|k: int| 0 <= k < flat_pieces(subs.take(n)).len() ==> #[trigger] flat_pieces(subs.take(n))[k] == flat_pieces(subs)[k],
        n > 0 ==> flat_pieces(subs.take(n)) == flat_pieces(subs.take(n - 1)) + char_pieces(subs[n - 1], MAX_CHUNK_CHARS as nat),
    decreases subs.len(),
{
    if n > 0 {
        assert(subs.take(n).drop_last() =~= subs.take(n - 1));
    }
    if n < subs.len() {
        lemma_flat_prefix(subs.drop_last(), n);
        assert(subs.drop_last().take(n) =~= subs.take(n));
        assert(flat_pieces(subs) == flat_pieces(subs.drop_last()) + char_pieces(subs.last(), MAX_CHUNK_CHARS as nat));
    } else {
        assert(subs.take(n) =~= subs);
    }
}

// ---------------------------------------------------------------------------
// Code chunks as documents
// ---------------------------------------------------------------------------

/// The document type of a code file: its extension in lower case, `txt`
/// when it has none.
pub open spec fn doc_type_of(file_name: Seq<char>) -> Seq<char> {
    match path_extension(file_name) {
        Some(e) => lower_spec(e),
        None => lower_spec("txt"@),
    }
}

/// `d` is code chunk `c` as the `index`-th document chunk: same id, file,
/// code as content, creation time, and the chunk's payload as metadata.
pub open spec fn is_code_document(d: DocumentChunk, c: CodeChunk, index: int) -> bool {
    &&& d.id@ == c.id@
    &&& d.file_name@ == c.file_name@
    &&& d.content@ == c.code@
    &&& d.doc_type@ == doc_type_of(c.file_name@)
    &&& d.chunk_index == index
    &&& d.page is None
    &&& meta_view(d.metadata@) == meta_insert_all(Seq::empty(), text_entries(chunk_meta(c)))
    &&& d.created_at@ == c.created_at@
}

fn doc_type_for(file_name: &str) -> (r: String)
    ensures
        r@ == doc_type_of(file_name@),
{
    match path_extension_of(file_name) {
        Some(e) => to_lowercase(e.as_str()),
        None => to_lowercase("txt"),
    }
}

/// The metadata map built from a chunk's payload, every value a text.
fn code_metadata(c: &CodeChunk) -> (m: Vec<(String, MetaValue)>)
    ensures
        meta_view(m@) == meta_insert_all(Seq::empty(), text_entries(chunk_meta(*c))),
{
    let entries = c.chunk_metadata();
    let ghost te = text_entries(entries_view(entries@));
    let mut m: Vec<(String, MetaValue)> = Vec::new();
    let mut i: usize = 0;
    assert(te.take(0) =~= Seq::<(Seq<char>, MetaVal)>::empty());
    while i < entries.len()
        invariant
            i <= entries.len(),
            te == text_entries(entries_view(entries@)),
            meta_view(m@) == meta_insert_all(Seq::empty(), te.take(i as int)),
        decreases entries.len() - i,
    {
        assert(te.take(i + 1).drop_last() =~= te.take(i as int));
        assert(te.take(i + 1).last() == (entries@[i as int].0@, MetaVal::Text(entries@[i as int].1@)));
        meta_insert_exec(&mut m, entries[i].0.as_str(), MetaValue::Text(entries[i].1.clone()));
        i += 1;
    }
    assert(te.take(entries.len() as int) =~= te);
    m
}

/// Turns code chunks into document chunks numbered in order, each with the
/// code chunk's payload as its metadata.
pub fn code_chunks_to_document_chunks(code_chunks: Vec<CodeChunk>) -> (r: Vec<DocumentChunk>)
    requires
        code_chunks@.len() <= i64::MAX,
    ensures
        r@.len() == code_chunks@.len(),
        forall|k: int| 0 <= k < r@.len() ==> is_code_document(#[trigger] r@[k], code_chunks@[k], k),
{
    let mut out: Vec<DocumentChunk> = Vec::new();
    let mut k: usize = 0;
    while k < code_chunks.len()
        invariant
            k <= code_chunks@.len(),
            code_chunks@.len() <= i64::MAX,
            out@.len() == k,
            forall|q: int| 0 <= q < k ==> is_code_document(#[trigger] out@[q], code_chunks@[q], q),
        decreases code_chunks@.len() - k,
    {
        let cc = &code_chunks[k];
        let d = DocumentChunk {
            id: cc.id.clone(),
            file_name: cc.file_name.clone(),
            content: cc.code.clone(),
            doc_type: doc_type_for(cc.file_name.as_str()),
            chunk_index: k as i64,
            page: None,
            metadata: code_metadata(cc),
            created_at: cc.created_at.clone(),
        };
        out.push(d);
        k += 1;
    }
    out
}

// ---------------------------------------------------------------------------
// Base metadata of an upload
// ---------------------------------------------------------------------------

/// How an upload is embedded: the target collection, the repository and
/// group it belongs to, and the user's metadata object (as entries; `None`
/// when none was given or it was not an object).
#[derive(Debug, Clone, PartialEq, Default)]
pub struct EmbeddingOptions {
    pub collection: Option<String>,
    pub repo_name: Option<String>,
    pub group: Option<String>,
    pub metadata: Option<Vec<(String, MetaValue)>>,
}

pub open spec fn opt_str_view(o: Option<&str>) -> Option<Seq<char>> {
    match o {
        Some(s) => Some(s@),
        None => None,
    }
}

/// The base payload of an upload before its creation time, in insertion
/// order: file name, type, repository when given, group when given, then
/// the user's metadata.
pub open spec fn base_meta(
    file_name: Seq<char>,
    doc_type: Seq<char>,
    repo_name: Option<Seq<char>>,
    group: Option<Seq<char>>,
    user: Option<Seq<(String, MetaValue)>>,
) -> Seq<(Seq<char>, MetaVal)> {
    seq![("file_name"@, MetaVal::Text(file_name)), ("doc_type"@, MetaVal::Text(doc_type))] + match repo_name {
        Some(r) => seq![("repo_name"@, MetaVal::Text(r))],
        None => Seq::empty(),
    } + match group {
        Some(g) => seq![("group"@, MetaVal::Text(g))],
        None => Seq::empty(),
    } + match user {
        Some(u) => meta_view(u),
        None => Seq::empty(),
    }
}

/// The payload shared by every chunk of an upload, in insertion order: the
/// base entries, then `created_at` with the current time (which wins over
/// a user entry of that name).
pub fn build_base_metadata(file_name: &str, doc_type: &str, repo_name: Option<&str>, options: &EmbeddingOptions) -> (r: Vec<(String, MetaValue)>)
    ensures
        r@.len() > 0,
        meta_view(r@).drop_last() == base_meta(
            file_name@,
            doc_type@,
            opt_str_view(repo_name),
            crate::chunk_types::opt_view(options.group),
            match options.metadata {
                Some(u) => Some(u@),
                None => None,
            },
        ),
        meta_view(r@).last().0 == "created_at"@,
        meta_view(r@).last().1 is Text,
{
    let mut m: Vec<(String, MetaValue)> = Vec::new();
    m.push(("file_name".to_owned(), MetaValue::Text(file_name.to_owned())));
    m.push(("doc_type".to_owned(), MetaValue::Text(doc_type.to_owned())));
    match repo_name {
        Some(rn) => {
            m.push(("repo_name".to_owned(), MetaValue::Text(rn.to_owned())));
        },
        None => {},
    }
    match &options.group {
        Some(g) => {
            m.push(("group".to_owned(), MetaValue::Text(g.clone())));
        },
        None => {},
    }
    match &options.metadata {
        Some(u) => {
            append_meta(&mut m, u);
        },
        None => {},
    }
    let ghost base = meta_view(m@);
    m.push(("created_at".to_owned(), MetaValue::Text(now_iso())));
    assert(meta_view(m@).drop_last() =~= base);
    m
}

// ---------------------------------------------------------------------------
// Upsert payloads
// ---------------------------------------------------------------------------

/// The payload stored for chunk `i` of an upsert: the chunk's own payload,
/// then the caller's extra entries (later entries win), then its position
/// under `chunk_index` when no entry has that key.
pub open spec fn upsert_meta(
    c: DocumentChunk,
    extra: Seq<(Seq<char>, MetaVal)>,
    i: int,
) -> Seq<(Seq<char>, MetaVal)> {
    let m = doc_meta(c) + extra;
    if key_index(m, "chunk_index"@, 0) < m.len() {
        m
    } else {
        m.push(("chunk_index"@, MetaVal::Int(i)))
    }
}

fn has_key(m: &Vec<(String, MetaValue)>, key: &str) -> (r: bool)
    ensures
        r == (key_index(meta_view(m@), key@, 0) < m@.len()),
{
    let ghost mv = meta_view(m@);
    proof {
        lemma_key_index_bounds(mv, key@, 0);
    }
    let mut i: usize = 0;
    while i < m.len()
        invariant
            i <= m.len(),
            mv == meta_view(m@),
            forall|j: int| 0 <= j < i ==> mv[j].0 != key@,
        decreases m.len() - i,
    {
        if crate::text::str_eq(m[i].0.as_str(), key) {
            assert(mv[i as int].0 == key@);
            proof {
                lemma_key_index_bounds(mv, key@, 0);
            }
            assert(key_index(mv, key@, 0) <= i);
            return true;
        }
        i += 1;
    }
    proof {
        if key_index(mv, key@, 0) < mv.len() {
            let k = key_index(mv, key@, 0);
            assert(mv[k].0 == key@);
        }
    }
    false
}

/// The payloads of an upsert's chunks (see `upsert_meta`); `extra` holds
/// the entries of the caller's extra metadata object (none when it is not
/// an object).
pub fn upsert_metadatas(chunks: &Vec<DocumentChunk>, extra: &Vec<(String, MetaValue)>) -> (r: Vec<Vec<(String, MetaValue)>>)
    requires
        chunks.len() <= i64::MAX,
    ensures
        r@.len() == chunks@.len(),
        forall|i: int| 0 <= i < r@.len() ==> meta_view((#[trigger] r@[i])@) == upsert_meta(chunks@[i], meta_view(extra@), i),
{
    let mut r: Vec<Vec<(String, MetaValue)>> = Vec::new();
    let mut i: usize = 0;
    while i < chunks.len()
        invariant
            i <= chunks.len() <= i64::MAX,
            r@.len() == i,
            forall|k: int| 0 <= k < i ==> meta_view((#[trigger] r@[k])@) == upsert_meta(chunks@[k], meta_view(extra@), k),
        decreases chunks.len() - i,
    {
        let mut m = chunks[i].chunk_metadata();
        append_meta(&mut m, extra);
        if !has_key(&m, "chunk_index") {
            let ghost before = meta_view(m@);
            m.push(("chunk_index".to_owned(), MetaValue::Int(i as i64)));
            assert(meta_view(m@) =~= before.push(("chunk_index"@, MetaVal::Int(i as int))));
        }
        r.push(m);
        i += 1;
    }
    r
}


} // verus!
