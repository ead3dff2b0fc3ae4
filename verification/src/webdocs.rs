//! Turning one scraped web page into document chunks: the page's prose
//! (split, then small pieces merged) and its code samples become chunks
//! that share the page's metadata, each stamped with a content hash, the
//! page's chunk count, its neighbours' ids and the page links its text
//! mentions.
use vstd::prelude::*;
use sha2::Digest;
use crate::text::{chars_of, string_of, str_eq, concat_str, contains_spec, contains_str};
use crate::seqtext::{join, join_strings, views, push_string};
use crate::document::{
    DocumentChunk, MetaValue, MetaVal, meta_view, meta_insert, meta_insert_exec, key_index, copy_meta,
    lemma_key_index_bounds,
};
use crate::web::{WebSection, Link, CodeBlock, merged_chunks, merge_small_chunks};
use crate::pagetext::{simple_chunks, simple_chunk};
use crate::loaders::{json_string, json_string_spec};
use crate::sql::new_uuid_string;
use crate::code_chunk::now_iso;

verus! {

/// Chunks of page prose below this many (approximate) tokens are merged.
pub const MERGE_MIN_TOKENS: usize = 512;

// ---------------------------------------------------------------------------
// Outside calls
// ---------------------------------------------------------------------------

/// The SHA-256 digest of a byte string.
pub uninterp spec fn sha256_spec(bytes: Seq<u8>) -> Seq<u8>;

/// `Sha256::digest` of sha2: the digest of the bytes, 32 bytes long. The
/// contract names the result: a function of the bytes alone.
#[verifier::external_body]
fn sha256(bytes: &[u8]) -> (r: Vec<u8>)
    ensures
        r@ == sha256_spec(bytes@),
        r@.len() == 32,
{
    sha2::Sha256::digest(bytes).to_vec()
}

/// The version-5 UUID of a URL (in the URL namespace).
pub uninterp spec fn url_uuid_spec(url: Seq<char>) -> Seq<char>;

/// `Uuid::new_v5(&Uuid::NAMESPACE_URL, url)` of uuid, in its hyphenated
/// 36-character form. The contract names the result: a function of the URL
/// alone.
#[verifier::external_body]
fn url_uuid(url: &str) -> (r: String)
    ensures
        r@ == url_uuid_spec(url@),
        r@.len() == 36,
{
    uuid::Uuid::new_v5(&uuid::Uuid::NAMESPACE_URL, url.as_bytes()).to_string()
}

// ---------------------------------------------------------------------------
// Page text and prose
// ---------------------------------------------------------------------------

/// A section's part of the page text: its heading path joined by ` > `, a
/// newline, then its content; just the content when it has no heading.
pub open spec fn section_text(s: WebSection) -> Seq<char> {
    if s.heading_path@.len() == 0 {
        s.content@
    } else {
        join(views(s.heading_path@), " > "@) + "\n"@ + s.content@
    }
}

/// The page's prose: its sections' texts, one per line.
pub open spec fn page_text(sections: Seq<WebSection>) -> Seq<char> {
    join(Seq::new(sections.len(), |i: int| section_text(sections[i])), "\n"@)
}

/// The prose chunks of a page: the splitter's pieces (or, with none, the
/// simple windows of the text), small ones merged when there are several.
pub open spec fn page_prose(text: Seq<char>, pieces: Option<Seq<Seq<char>>>, chunk_size: int) -> Seq<Seq<char>> {
    let p = match pieces {
        Some(v) => v,
        None => simple_chunks(text, chunk_size),
    };
    if p.len() > 1 {
        merged_chunks(p, MERGE_MIN_TOKENS as int)
    } else {
        p
    }
}

/// The code samples of the sections, in order: (code, language, the
/// section's heading path joined by ` > `).
pub open spec fn code_entries(sections: Seq<WebSection>) -> Seq<(Seq<char>, Seq<char>, Seq<char>)>
    decreases sections.len(),
{
    if sections.len() == 0 {
        Seq::empty()
    } else {
        let s = sections.last();
        let hp = join(views(s.heading_path@), " > "@);
        code_entries(sections.drop_last()) + Seq::new(s.code_blocks@.len(), |j: int| (s.code_blocks@[j].raw@, s.code_blocks@[j].language@, hp))
    }
}

// ---------------------------------------------------------------------------
// Links
// ---------------------------------------------------------------------------

/// Links as (anchor text, href) pairs.
pub open spec fn link_pairs(v: Seq<Link>) -> Seq<(Seq<char>, Seq<char>)> {
    Seq::new(v.len(), |i: int| (v[i].anchor_text@, v[i].href@))
}

/// The links of the sections, in order.
pub open spec fn section_links(sections: Seq<WebSection>) -> Seq<(Seq<char>, Seq<char>)>
    decreases sections.len(),
{
    if sections.len() == 0 {
        Seq::empty()
    } else {
        section_links(sections.drop_last()) + link_pairs(sections.last().links@)
    }
}

pub open spec fn anchors(m: Seq<(Seq<char>, Seq<char>)>) -> Seq<Seq<char>> {
    Seq::new(m.len(), |i: int| m[i].0)
}

/// The anchor map after adding `links` in order: the first href of each
/// anchor text wins.
pub open spec fn add_links(m: Seq<(Seq<char>, Seq<char>)>, links: Seq<(Seq<char>, Seq<char>)>) -> Seq<(Seq<char>, Seq<char>)>
    decreases links.len(),
{
    if links.len() == 0 {
        m
    } else {
        let prev = add_links(m, links.drop_last());
        if anchors(prev).contains(links.last().0) {
            prev
        } else {
            prev.push(links.last())
        }
    }
}

/// The page's anchor map: its sections' links, then its navigation links.
pub open spec fn page_link_map(sections: Seq<WebSection>, nav: Seq<Link>) -> Seq<(Seq<char>, Seq<char>)> {
    add_links(add_links(Seq::empty(), section_links(sections)), link_pairs(nav))
}

/// The entries of the anchor map whose anchor text the content contains.
pub open spec fn link_matches(m: Seq<(Seq<char>, Seq<char>)>, content: Seq<char>) -> Seq<(Seq<char>, Seq<char>)>
    decreases m.len(),
{
    if m.len() == 0 {
        Seq::empty()
    } else {
        let prev = link_matches(m.drop_last(), content);
        if contains_spec(content, m.last().0) {
            prev.push(m.last())
        } else {
            prev
        }
    }
}

/// A link as a JSON object.
pub open spec fn link_json(anchor: Seq<char>, href: Seq<char>) -> Seq<char> {
    "{\"anchor_text\":"@ + json_string_spec(anchor) + ",\"href\":"@ + json_string_spec(href) + "}"@
}

/// Links as a JSON array of objects.
pub open spec fn links_json(m: Seq<(Seq<char>, Seq<char>)>) -> Seq<char> {
    "["@ + join(Seq::new(m.len(), |i: int| link_json(m[i].0, m[i].1)), ","@) + "]"@
}

// ---------------------------------------------------------------------------
// Metadata
// ---------------------------------------------------------------------------

/// The text stored under `group`, else `default`.
pub open spec fn group_of(m: Seq<(Seq<char>, MetaVal)>) -> Seq<char> {
    let i = key_index(m, "group"@, 0);
    if i < m.len() {
        match m[i].1 {
            MetaVal::Text(g) => g,
            _ => "default"@,
        }
    } else {
        "default"@
    }
}

/// The key identifying one embedding of a page: the JSON array of its URL,
/// group and embedding time.
pub open spec fn website_key(url: Seq<char>, group: Seq<char>, embedded_at: Seq<char>) -> Seq<char> {
    "["@ + json_string_spec(url) + ","@ + json_string_spec(group) + ","@ + json_string_spec(embedded_at) + "]"@
}

/// The metadata every chunk of a page starts from: the caller's, with the
/// page's URL, type, embedding time, id, title, navigation links and key.
pub open spec fn page_base_meta(meta: Seq<(Seq<char>, MetaVal)>, url: Seq<char>, embedded_at: Seq<char>, page_id: Seq<char>, title: Seq<char>, nav: Seq<(Seq<char>, Seq<char>)>) -> Seq<(Seq<char>, MetaVal)> {
    let m1 = meta_insert(meta, "url"@, MetaVal::Text(url));
    let m2 = meta_insert(m1, "doc_type"@, MetaVal::Text("website"@));
    let m3 = meta_insert(m2, "embedded_at"@, MetaVal::Text(embedded_at));
    let m4 = meta_insert(m3, "page_id"@, MetaVal::Text(page_id));
    let m5 = meta_insert(m4, "page_title"@, MetaVal::Text(title));
    let m6 = meta_insert(m5, "navigation_links"@, MetaVal::Json(links_json(nav)));
    meta_insert(m6, "website_key"@, MetaVal::Text(website_key(url, group_of(m6), embedded_at)))
}

/// A prose chunk's metadata before the page-wide fields.
pub open spec fn prose_meta(base: Seq<(Seq<char>, MetaVal)>, title: Seq<char>) -> Seq<(Seq<char>, MetaVal)> {
    meta_insert(meta_insert(base, "heading_path"@, MetaVal::Text(title)), "content_type"@, MetaVal::Text("prose"@))
}

/// A code chunk's metadata before the page-wide fields.
pub open spec fn code_meta(base: Seq<(Seq<char>, MetaVal)>, heading_path: Seq<char>, language: Seq<char>) -> Seq<(Seq<char>, MetaVal)> {
    let m = meta_insert(meta_insert(base, "heading_path"@, MetaVal::Text(heading_path)), "content_type"@, MetaVal::Text("code"@));
    if language.len() > 0 {
        meta_insert(m, "language"@, MetaVal::Text(language))
    } else {
        m
    }
}

/// A hexadecimal digit (lower case).
pub open spec fn hex_digit(d: int) -> char {
    if d < 10 {
        (d + 48) as char
    } else {
        (d + 87) as char
    }
}

/// The first `n` bytes of `h` in hexadecimal, two digits each.
pub open spec fn hex_prefix(h: Seq<u8>, n: int) -> Seq<char>
    decreases n,
{
    if n <= 0 {
        Seq::empty()
    } else {
        hex_prefix(h, n - 1) + seq![hex_digit(h[n - 1] as int / 16), hex_digit(h[n - 1] as int % 16)]
    }
}

/// A chunk's content hash: the first 8 bytes of the SHA-256 of its UTF-8
/// text, in hexadecimal.
pub open spec fn chunk_hash(content: Seq<char>) -> Seq<char> {
    hex_prefix(sha256_spec(vstd::utf8::encode_utf8(content)), 8)
}

/// The page-wide fields added to a chunk's metadata: its hash, the page's
/// chunk count, the ids before and after it (JSON `null` at the ends) and
/// the page links its content mentions.
pub open spec fn linked_meta(m: Seq<(Seq<char>, MetaVal)>, content: Seq<char>, total: int, prev: MetaVal, next: MetaVal, links: Seq<(Seq<char>, Seq<char>)>) -> Seq<(Seq<char>, MetaVal)> {
    let m1 = meta_insert(m, "chunk_hash"@, MetaVal::Text(chunk_hash(content)));
    let m2 = meta_insert(m1, "total_chunks"@, MetaVal::Int(total));
    let m3 = meta_insert(m2, "prev_chunk_id"@, prev);
    let m4 = meta_insert(m3, "next_chunk_id"@, next);
    meta_insert(m4, "links"@, MetaVal::Json(links_json(link_matches(links, content))))
}

// ---------------------------------------------------------------------------
// The chunks of a page
// ---------------------------------------------------------------------------

pub open spec fn opt_pieces(p: Option<Vec<String>>) -> Option<Seq<Seq<char>>> {
    match p {
        Some(v) => Some(views(v@)),
        None => None,
    }
}

/// The content of the page's `k`-th chunk: prose first, then code.
pub open spec fn chunk_content(prose: Seq<Seq<char>>, codes: Seq<(Seq<char>, Seq<char>, Seq<char>)>, k: int) -> Seq<char> {
    if k < prose.len() {
        prose[k]
    } else {
        codes[k - prose.len()].0
    }
}

/// The metadata of the page's `k`-th chunk before the page-wide fields.
pub open spec fn kind_meta(base: Seq<(Seq<char>, MetaVal)>, title: Seq<char>, prose: Seq<Seq<char>>, codes: Seq<(Seq<char>, Seq<char>, Seq<char>)>, k: int) -> Seq<(Seq<char>, MetaVal)> {
    if k < prose.len() {
        prose_meta(base, title)
    } else {
        code_meta(base, codes[k - prose.len()].2, codes[k - prose.len()].1)
    }
}

/// The id of chunk `k` as a metadata value; JSON `null` past either end.
pub open spec fn id_meta(r: Seq<DocumentChunk>, k: int) -> MetaVal {
    if 0 <= k < r.len() {
        MetaVal::Text(r[k].id@)
    } else {
        MetaVal::Json("null"@)
    }
}

/// Chunk `k` of `r` before the page-wide fields: a fresh id, the page's URL
/// as file name, its content, type `website`, its position as index, no
/// page, and its kind's metadata.
pub open spec fn draft_ok(d: DocumentChunk, k: int, url: Seq<char>, base: Seq<(Seq<char>, MetaVal)>, title: Seq<char>, prose: Seq<Seq<char>>, codes: Seq<(Seq<char>, Seq<char>, Seq<char>)>) -> bool {
    &&& crate::sql::is_uuid_v4_text(d.id@, true)
    &&& crate::code_chunk::utc_stamp_shape(d.created_at@)
    &&& d.file_name@ == url
    &&& d.content@ == chunk_content(prose, codes, k)
    &&& d.doc_type@ == "website"@
    &&& d.chunk_index == k as i64
    &&& d.page is None
    &&& meta_view(d.metadata@) == kind_meta(base, title, prose, codes, k)
}

/// `r` holds the chunks of a page (see `website_page_chunks`).
pub open spec fn page_chunks_ok(r: Seq<DocumentChunk>, url: Seq<char>, title: Seq<char>, sections: Seq<WebSection>, nav: Seq<Link>, meta: Seq<(Seq<char>, MetaVal)>, embedded_at: Seq<char>, prose: Seq<Seq<char>>) -> bool {
    let codes = code_entries(sections);
    let total = prose.len() + codes.len();
    if sections.len() == 0 || total == 0 {
        r.len() == 0
    } else {
        let base = page_base_meta(meta, url, embedded_at, url_uuid_spec(url), title, link_pairs(nav));
        let links = page_link_map(sections, nav);
        &&& r.len() == total
        &&& forall|k: int| 0 <= k < r.len() ==> {
            &&& crate::sql::is_uuid_v4_text((#[trigger] r[k]).id@, true)
            &&& crate::code_chunk::utc_stamp_shape(r[k].created_at@)
            &&& r[k].file_name@ == url
            &&& r[k].content@ == chunk_content(prose, codes, k)
            &&& r[k].doc_type@ == "website"@
            &&& r[k].chunk_index == k as i64
            &&& r[k].page is None
            &&& meta_view(r[k].metadata@) == linked_meta(kind_meta(base, title, prose, codes, k), r[k].content@, (r.len() as i64) as int, id_meta(r, k - 1), id_meta(r, k + 1), links)
        }
    }
}

// ---------------------------------------------------------------------------
// Executable parts
// ---------------------------------------------------------------------------

fn hex_digit_of(d: u8) -> (r: char)
    requires
        d < 16,
    ensures
        r == hex_digit(d as int),
{
    if d < 10 {
        (d + 48u8) as char
    } else {
        (d + 87u8) as char
    }
}

/// The first 8 bytes of `h` in hexadecimal.
fn hex8(h: &Vec<u8>) -> (r: String)
    requires
        h@.len() >= 8,
    ensures
        r@ == hex_prefix(h@, 8),
{
    let mut v: Vec<char> = Vec::new();
    let mut i: usize = 0;
    while i < 8
        invariant
            i <= 8,
            h@.len() >= 8,
            v@ == hex_prefix(h@, i as int),
        decreases 8 - i,
    {
        let b = h[i];
        v.push(hex_digit_of(b / 16));
        v.push(hex_digit_of(b % 16));
        i += 1;
    }
    string_of(&v)
}

/// A chunk's content hash (see `chunk_hash`).
fn chunk_hash_of(content: &str) -> (r: String)
    ensures
        r@ == chunk_hash(content@),
{
    let h = sha256(content.as_bytes());
    hex8(&h)
}

fn section_text_of(s: &WebSection) -> (r: String)
    ensures
        r@ == section_text(*s),
{
    if s.heading_path.len() == 0 {
        s.content.clone()
    } else {
        let hp = join_strings(&s.heading_path, " > ");
        let head = concat_str(hp.as_str(), "\n");
        concat_str(head.as_str(), s.content.as_str())
    }
}

/// The page's prose text (see `page_text`): the text the splitter cuts.
pub fn page_text_of(sections: &Vec<WebSection>) -> (r: String)
    ensures
        r@ == page_text(sections@),
{
    let mut parts: Vec<String> = Vec::new();
    let mut i: usize = 0;
    while i < sections.len()
        invariant
            i <= sections@.len(),
            views(parts@) == Seq::new(i as nat, |k: int| section_text(sections@[k])),
        decreases sections.len() - i,
    {
        let ghost before = views(parts@);
        push_string(&mut parts, section_text_of(&sections[i]));
        assert(views(parts@) =~= Seq::new((i + 1) as nat, |k: int| section_text(sections@[k])));
        i += 1;
    }
    join_strings(&parts, "\n")
}

/// The prose chunks of a page (see `page_prose`).
fn page_prose_of(text: &str, pieces: Option<Vec<String>>, chunk_size: usize, chunk_overlap: usize) -> (r: Vec<String>)
    requires
        chunk_size * 4 <= usize::MAX,
    ensures
        views(r@) == page_prose(text@, opt_pieces(pieces), chunk_size as int),
{
    let p = match pieces {
        Some(v) => v,
        None => simple_chunk(text, chunk_size, chunk_overlap),
    };
    if p.len() > 1 {
        merge_small_chunks(p, MERGE_MIN_TOKENS)
    } else {
        p
    }
}

pub open spec fn entry_views(v: Seq<(String, String, String)>) -> Seq<(Seq<char>, Seq<char>, Seq<char>)> {
    Seq::new(v.len(), |i: int| (v[i].0@, v[i].1@, v[i].2@))
}

fn code_entries_of(sections: &Vec<WebSection>) -> (r: Vec<(String, String, String)>)
    ensures
        entry_views(r@) == code_entries(sections@),
{
    let mut out: Vec<(String, String, String)> = Vec::new();
    let mut k: usize = 0;
    while k < sections.len()
        invariant
            k <= sections@.len(),
            entry_views(out@) == code_entries(sections@.take(k as int)),
        decreases sections.len() - k,
    {
        let s = &sections[k];
        assert(sections@.take(k + 1).drop_last() =~= sections@.take(k as int));
        assert(sections@.take(k + 1).last() == *s);
        let hp = join_strings(&s.heading_path, " > ");
        let ghost start = entry_views(out@);
        let ghost bs = s.code_blocks@;
        let mut j: usize = 0;
        while j < s.code_blocks.len()
            invariant
                j <= bs.len(),
                bs == s.code_blocks@,
                hp@ == join(views(s.heading_path@), " > "@),
                entry_views(out@) == start + Seq::new(j as nat, |q: int| (bs[q].raw@, bs[q].language@, hp@)),
            decreases bs.len() - j,
        {
            let cb = &s.code_blocks[j];
            let ghost before = entry_views(out@);
            out.push((cb.raw.clone(), cb.language.clone(), hp.clone()));
            assert(entry_views(out@) =~= before.push((bs[j as int].raw@, bs[j as int].language@, hp@)));
            assert(start + Seq::new((j + 1) as nat, |q: int| (bs[q].raw@, bs[q].language@, hp@)) =~= (start + Seq::new(j as nat, |q: int| (bs[q].raw@, bs[q].language@, hp@))).push((bs[j as int].raw@, bs[j as int].language@, hp@)));
            j += 1;
        }
        assert(Seq::new(bs.len(), |q: int| (bs[q].raw@, bs[q].language@, hp@)) =~= Seq::new(s.code_blocks@.len(), |q: int| (s.code_blocks@[q].raw@, s.code_blocks@[q].language@, join(views(s.heading_path@), " > "@))));
        k += 1;
    }
    assert(sections@.take(sections@.len() as int) =~= sections@);
    out
}

pub open spec fn map_view(v: Seq<(String, String)>) -> Seq<(Seq<char>, Seq<char>)> {
    Seq::new(v.len(), |i: int| (v[i].0@, v[i].1@))
}

fn has_anchor(m: &Vec<(String, String)>, a: &str) -> (r: bool)
    ensures
        r == anchors(map_view(m@)).contains(a@),
{
    let ghost an = anchors(map_view(m@));
    let mut i: usize = 0;
    while i < m.len()
        invariant
            i <= m@.len(),
            an == anchors(map_view(m@)),
            forall|k: int| 0 <= k < i ==> an[k] != a@,
        decreases m.len() - i,
    {
        if str_eq(m[i].0.as_str(), a) {
            assert(an[i as int] == a@);
            return true;
        }
        i += 1;
    }
    false
}

fn add_link(m: &mut Vec<(String, String)>, anchor: &String, href: &String)
    ensures
        map_view(final(m)@) == add_links(map_view(old(m)@), seq![(anchor@, href@)]),
{
    let ghost before = map_view(m@);
    proof {
        reveal_with_fuel(add_links, 2);
        assert(seq![(anchor@, href@)].drop_last() =~= Seq::<(Seq<char>, Seq<char>)>::empty());
        assert(seq![(anchor@, href@)].last() == (anchor@, href@));
    }
    if !has_anchor(m, anchor.as_str()) {
        m.push((anchor.clone(), href.clone()));
        assert(map_view(m@) =~= before.push((anchor@, href@)));
    }
}

pub proof fn lemma_add_links_push(m: Seq<(Seq<char>, Seq<char>)>, a: Seq<(Seq<char>, Seq<char>)>, x: (Seq<char>, Seq<char>))
    ensures
        add_links(m, a.push(x)) == add_links(add_links(m, a), seq![x]),
{
    reveal_with_fuel(add_links, 2);
    assert(a.push(x).drop_last() =~= a);
    assert(seq![x].drop_last() =~= Seq::<(Seq<char>, Seq<char>)>::empty());
    assert(seq![x].last() == x);
}

pub proof fn lemma_add_links_concat(m: Seq<(Seq<char>, Seq<char>)>, a: Seq<(Seq<char>, Seq<char>)>, b: Seq<(Seq<char>, Seq<char>)>)
    ensures
        add_links(m, a + b) == add_links(add_links(m, a), b),
    decreases b.len(),
{
    if b.len() == 0 {
        assert(a + b =~= a);
    } else {
        lemma_add_links_concat(m, a, b.drop_last());
        assert((a + b).drop_last() =~= a + b.drop_last());
        assert((a + b).last() == b.last());
    }
}

/// The page's anchor map (see `page_link_map`).
fn page_link_map_of(sections: &Vec<WebSection>, nav: &Vec<Link>) -> (r: Vec<(String, String)>)
    ensures
        map_view(r@) == page_link_map(sections@, nav@),
{
    let mut m: Vec<(String, String)> = Vec::new();
    let ghost e: Seq<(Seq<char>, Seq<char>)> = Seq::empty();
    let ghost mut flat: Seq<(Seq<char>, Seq<char>)> = Seq::empty();
    assert(map_view(m@) =~= e);
    let mut k: usize = 0;
    while k < sections.len()
        invariant
            k <= sections@.len(),
            e == Seq::<(Seq<char>, Seq<char>)>::empty(),
            flat == section_links(sections@.take(k as int)),
            map_view(m@) == add_links(e, flat),
        decreases sections.len() - k,
    {
        let s = &sections[k];
        assert(sections@.take(k + 1).drop_last() =~= sections@.take(k as int));
        assert(sections@.take(k + 1).last() == *s);
        let ghost start = flat;
        let mut j: usize = 0;
        while j < s.links.len()
            invariant
                j <= s.links@.len(),
                e == Seq::<(Seq<char>, Seq<char>)>::empty(),
                flat == start + link_pairs(s.links@.take(j as int)),
                map_view(m@) == add_links(e, flat),
            decreases s.links.len() - j,
        {
            let l = &s.links[j];
            let ghost x = (l.anchor_text@, l.href@);
            proof {
                lemma_add_links_push(e, flat, x);
                assert(link_pairs(s.links@.take(j + 1)) =~= link_pairs(s.links@.take(j as int)).push(x));
                assert(start + link_pairs(s.links@.take(j + 1)) =~= (start + link_pairs(s.links@.take(j as int))).push(x));
            }
            add_link(&mut m, &l.anchor_text, &l.href);
            proof {
                flat = flat.push(x);
            }
            j += 1;
        }
        assert(s.links@.take(s.links@.len() as int) =~= s.links@);
        k += 1;
    }
    assert(sections@.take(sections@.len() as int) =~= sections@);
    let ghost sl = flat;
    let mut j: usize = 0;
    while j < nav.len()
        invariant
            j <= nav@.len(),
            e == Seq::<(Seq<char>, Seq<char>)>::empty(),
            sl == section_links(sections@),
            flat == sl + link_pairs(nav@.take(j as int)),
            map_view(m@) == add_links(e, flat),
        decreases nav.len() - j,
    {
        let l = &nav[j];
        let ghost x = (l.anchor_text@, l.href@);
        proof {
            lemma_add_links_push(e, flat, x);
            assert(link_pairs(nav@.take(j + 1)) =~= link_pairs(nav@.take(j as int)).push(x));
            assert(sl + link_pairs(nav@.take(j + 1)) =~= (sl + link_pairs(nav@.take(j as int))).push(x));
        }
        add_link(&mut m, &l.anchor_text, &l.href);
        proof {
            flat = flat.push(x);
        }
        j += 1;
    }
    proof {
        assert(nav@.take(nav@.len() as int) =~= nav@);
        lemma_add_links_concat(e, sl, link_pairs(nav@));
    }
    m
}

/// The anchor-map entries whose anchor text the content mentions.
fn link_matches_of(m: &Vec<(String, String)>, content: &str) -> (r: Vec<(String, String)>)
    ensures
        map_view(r@) == link_matches(map_view(m@), content@),
{
    let ghost mv = map_view(m@);
    let mut out: Vec<(String, String)> = Vec::new();
    let mut i: usize = 0;
    while i < m.len()
        invariant
            i <= m@.len(),
            mv == map_view(m@),
            map_view(out@) == link_matches(mv.take(i as int), content@),
        decreases m.len() - i,
    {
        assert(mv.take(i + 1).drop_last() =~= mv.take(i as int));
        assert(mv.take(i + 1).last() == mv[i as int]);
        let ghost before = map_view(out@);
        if contains_str(content, m[i].0.as_str()) {
            out.push((m[i].0.clone(), m[i].1.clone()));
            assert(map_view(out@) =~= before.push(mv[i as int]));
        }
        i += 1;
    }
    assert(mv.take(m@.len() as int) =~= mv);
    out
}

fn link_json_of(anchor: &String, href: &String) -> (r: String)
    ensures
        r@ == link_json(anchor@, href@),
{
    let a = json_string(anchor.clone());
    let h = json_string(href.clone());
    let s1 = concat_str("{\"anchor_text\":", a.as_str());
    let s2 = concat_str(s1.as_str(), ",\"href\":");
    let s3 = concat_str(s2.as_str(), h.as_str());
    concat_str(s3.as_str(), "}")
}

/// Links as a JSON array of objects (see `links_json`).
fn links_json_of(m: &Vec<(String, String)>) -> (r: String)
    ensures
        r@ == links_json(map_view(m@)),
{
    let ghost mv = map_view(m@);
    let mut parts: Vec<String> = Vec::new();
    let mut i: usize = 0;
    while i < m.len()
        invariant
            i <= m@.len(),
            mv == map_view(m@),
            views(parts@) == Seq::new(i as nat, |k: int| link_json(mv[k].0, mv[k].1)),
        decreases m.len() - i,
    {
        push_string(&mut parts, link_json_of(&m[i].0, &m[i].1));
        assert(views(parts@) =~= Seq::new((i + 1) as nat, |k: int| link_json(mv[k].0, mv[k].1)));
        i += 1;
    }
    let body = join_strings(&parts, ",");
    let open = concat_str("[", body.as_str());
    concat_str(open.as_str(), "]")
}

fn link_list(v: &Vec<Link>) -> (r: Vec<(String, String)>)
    ensures
        map_view(r@) == link_pairs(v@),
{
    let mut out: Vec<(String, String)> = Vec::new();
    let mut i: usize = 0;
    while i < v.len()
        invariant
            i <= v@.len(),
            map_view(out@) == link_pairs(v@.take(i as int)),
        decreases v.len() - i,
    {
        let ghost before = map_view(out@);
        out.push((v[i].anchor_text.clone(), v[i].href.clone()));
        assert(map_view(out@) =~= before.push((v@[i as int].anchor_text@, v@[i as int].href@)));
        assert(link_pairs(v@.take(i + 1)) =~= link_pairs(v@.take(i as int)).push((v@[i as int].anchor_text@, v@[i as int].href@)));
        i += 1;
    }
    assert(v@.take(v@.len() as int) =~= v@);
    out
}

/// The text under `group`, else `default` (see `group_of`).
fn group_of_exec(m: &Vec<(String, MetaValue)>) -> (r: String)
    ensures
        r@ == group_of(meta_view(m@)),
{
    let ghost mv = meta_view(m@);
    proof {
        lemma_key_index_bounds(mv, "group"@, 0);
    }
    let mut i: usize = 0;
    while i < m.len()
        invariant
            i <= m@.len(),
            mv == meta_view(m@),
            forall|k: int| 0 <= k < i ==> mv[k].0 != "group"@,
            0 <= key_index(mv, "group"@, 0) <= mv.len(),
            key_index(mv, "group"@, 0) < mv.len() ==> mv[key_index(mv, "group"@, 0)].0 == "group"@,
            forall|j: int| 0 <= j < key_index(mv, "group"@, 0) ==> mv[j].0 != "group"@,
        decreases m.len() - i,
    {
        if str_eq(m[i].0.as_str(), "group") {
            assert(mv[i as int].0 == "group"@);
            assert(key_index(mv, "group"@, 0) == i);
            return match &m[i].1 {
                MetaValue::Text(g) => g.clone(),
                _ => "default".to_owned(),
            };
        }
        i += 1;
    }
    "default".to_owned()
}

/// The metadata every chunk of a page starts from (see `page_base_meta`).
fn page_base_meta_of(metadata: &Vec<(String, MetaValue)>, url: &str, embedded_at: &str, page_id: &String, title: &str, nav: &Vec<Link>) -> (r: Vec<(String, MetaValue)>)
    ensures
        meta_view(r@) == page_base_meta(meta_view(metadata@), url@, embedded_at@, page_id@, title@, link_pairs(nav@)),
{
    let mut m = copy_meta(metadata);
    meta_insert_exec(&mut m, "url", MetaValue::Text(url.to_owned()));
    meta_insert_exec(&mut m, "doc_type", MetaValue::Text("website".to_owned()));
    meta_insert_exec(&mut m, "embedded_at", MetaValue::Text(embedded_at.to_owned()));
    meta_insert_exec(&mut m, "page_id", MetaValue::Text(page_id.clone()));
    meta_insert_exec(&mut m, "page_title", MetaValue::Text(title.to_owned()));
    let nl = link_list(nav);
    meta_insert_exec(&mut m, "navigation_links", MetaValue::Json(links_json_of(&nl)));
    let group = group_of_exec(&m);
    let u = json_string(url.to_owned());
    let g = json_string(group);
    let t = json_string(embedded_at.to_owned());
    let k1 = concat_str("[", u.as_str());
    let k2 = concat_str(k1.as_str(), ",");
    let k3 = concat_str(k2.as_str(), g.as_str());
    let k4 = concat_str(k3.as_str(), ",");
    let k5 = concat_str(k4.as_str(), t.as_str());
    let key = concat_str(k5.as_str(), "]");
    meta_insert_exec(&mut m, "website_key", MetaValue::Text(key));
    m
}

fn draft(url: &str, content: String, index: i64, metadata: Vec<(String, MetaValue)>) -> (d: DocumentChunk)
    ensures
        crate::sql::is_uuid_v4_text(d.id@, true),
        crate::code_chunk::utc_stamp_shape(d.created_at@),
        d.file_name@ == url@,
        d.content@ == content@,
        d.doc_type@ == "website"@,
        d.chunk_index == index,
        d.page is None,
        d.metadata@ == metadata@,
{
    DocumentChunk {
        id: new_uuid_string(),
        file_name: url.to_owned(),
        content,
        doc_type: "website".to_owned(),
        chunk_index: index,
        page: None,
        metadata,
        created_at: now_iso(),
    }
}

/// The page's chunks before the page-wide fields: its prose, then its code
/// samples.
fn draft_chunks(url: &str, title: &str, base: &Vec<(String, MetaValue)>, prose: &Vec<String>, codes: &Vec<(String, String, String)>) -> (r: Vec<DocumentChunk>)
    ensures
        r@.len() == prose@.len() + codes@.len(),
        forall|k: int| 0 <= k < r@.len() ==> draft_ok(#[trigger] r@[k], k, url@, meta_view(base@), title@, views(prose@), entry_views(codes@)),
{
    let ghost pv = views(prose@);
    let ghost cv = entry_views(codes@);
    let ghost bv = meta_view(base@);
    let mut out: Vec<DocumentChunk> = Vec::new();
    let mut i: usize = 0;
    while i < prose.len()
        invariant
            i <= prose@.len(),
            out@.len() == i,
            pv == views(prose@),
            cv == entry_views(codes@),
            bv == meta_view(base@),
            forall|k: int| 0 <= k < out@.len() ==> draft_ok(#[trigger] out@[k], k, url@, bv, title@, pv, cv),
        decreases prose.len() - i,
    {
        let mut m = copy_meta(base);
        meta_insert_exec(&mut m, "heading_path", MetaValue::Text(title.to_owned()));
        meta_insert_exec(&mut m, "content_type", MetaValue::Text("prose".to_owned()));
        let index = out.len() as i64;
        let d = draft(url, prose[i].clone(), index, m);
        out.push(d);
        i += 1;
    }
    let mut j: usize = 0;
    while j < codes.len()
        invariant
            j <= codes@.len(),
            out@.len() == prose@.len() + j,
            pv == views(prose@),
            cv == entry_views(codes@),
            bv == meta_view(base@),
            forall|k: int| 0 <= k < out@.len() ==> draft_ok(#[trigger] out@[k], k, url@, bv, title@, pv, cv),
        decreases codes.len() - j,
    {
        let mut m = copy_meta(base);
        meta_insert_exec(&mut m, "heading_path", MetaValue::Text(codes[j].2.clone()));
        meta_insert_exec(&mut m, "content_type", MetaValue::Text("code".to_owned()));
        if !codes[j].1.as_str().is_empty() {
            meta_insert_exec(&mut m, "language", MetaValue::Text(codes[j].1.clone()));
        }
        let index = out.len() as i64;
        let d = draft(url, codes[j].0.clone(), index, m);
        out.push(d);
        j += 1;
    }
    out
}

/// The draft chunks with the page-wide fields added.
fn link_drafts(drafts: &Vec<DocumentChunk>, links: &Vec<(String, String)>) -> (r: Vec<DocumentChunk>)
    ensures
        r@.len() == drafts@.len(),
        forall|k: int| 0 <= k < r@.len() ==> {
            &&& (#[trigger] r@[k]).id@ == drafts@[k].id@
            &&& r@[k].created_at@ == drafts@[k].created_at@
            &&& r@[k].file_name@ == drafts@[k].file_name@
            &&& r@[k].content@ == drafts@[k].content@
            &&& r@[k].doc_type@ == drafts@[k].doc_type@
            &&& r@[k].chunk_index == drafts@[k].chunk_index
            &&& r@[k].page == drafts@[k].page
            &&& meta_view(r@[k].metadata@) == linked_meta(meta_view(drafts@[k].metadata@), drafts@[k].content@, (drafts@.len() as i64) as int, id_meta(drafts@, k - 1), id_meta(drafts@, k + 1), map_view(links@))
        },
{
    let n = drafts.len();
    let mut out: Vec<DocumentChunk> = Vec::new();
    let mut i: usize = 0;
    while i < n
        invariant
            i <= n,
            n == drafts@.len(),
            out@.len() == i,
            forall|k: int| 0 <= k < out@.len() ==> {
                &&& (#[trigger] out@[k]).id@ == drafts@[k].id@
                &&& out@[k].created_at@ == drafts@[k].created_at@
                &&& out@[k].file_name@ == drafts@[k].file_name@
                &&& out@[k].content@ == drafts@[k].content@
                &&& out@[k].doc_type@ == drafts@[k].doc_type@
                &&& out@[k].chunk_index == drafts@[k].chunk_index
                &&& out@[k].page == drafts@[k].page
                &&& meta_view(out@[k].metadata@) == linked_meta(meta_view(drafts@[k].metadata@), drafts@[k].content@, (drafts@.len() as i64) as int, id_meta(drafts@, k - 1), id_meta(drafts@, k + 1), map_view(links@))
            },
        decreases n - i,
    {
        let d = &drafts[i];
        let mut m = copy_meta(&d.metadata);
        meta_insert_exec(&mut m, "chunk_hash", MetaValue::Text(chunk_hash_of(d.content.as_str())));
        meta_insert_exec(&mut m, "total_chunks", MetaValue::Int(n as i64));
        let prev = if i > 0 {
            MetaValue::Text(drafts[i - 1].id.clone())
        } else {
            MetaValue::Json("null".to_owned())
        };
        meta_insert_exec(&mut m, "prev_chunk_id", prev);
        let next = if i + 1 < n {
            MetaValue::Text(drafts[i + 1].id.clone())
        } else {
            MetaValue::Json("null".to_owned())
        };
        meta_insert_exec(&mut m, "next_chunk_id", next);
        let found = link_matches_of(links, d.content.as_str());
        meta_insert_exec(&mut m, "links", MetaValue::Json(links_json_of(&found)));
        out.push(DocumentChunk {
            id: d.id.clone(),
            file_name: d.file_name.clone(),
            content: d.content.clone(),
            doc_type: d.doc_type.clone(),
            chunk_index: d.chunk_index,
            page: d.page,
            metadata: m,
            created_at: d.created_at.clone(),
        });
        i += 1;
    }
    out
}

/// The document chunks of one scraped page: none when it has no sections;
/// otherwise its prose chunks (the splitter's `pieces` for `page_text_of`
/// of the sections when given, else windows of `chunk_size`, small ones
/// merged) and then its code samples, all under the page's URL with type
/// `website`, indexed by position, and carrying the caller's metadata with
/// the page's fields, their kind's fields, a content hash, the page's chunk
/// count, their neighbours' ids and the page links their text mentions
/// (see `page_chunks_ok`).
pub fn website_page_chunks(url: &str, page_title: &str, sections: &Vec<WebSection>, navigation_links: &Vec<Link>, metadata: &Vec<(String, MetaValue)>, embedded_at: &str, pieces: Option<Vec<String>>, chunk_size: usize, chunk_overlap: usize) -> (r: Vec<DocumentChunk>)
    requires
        chunk_size * 4 <= usize::MAX,
    ensures
        page_chunks_ok(r@, url@, page_title@, sections@, navigation_links@, meta_view(metadata@), embedded_at@, page_prose(page_text(sections@), opt_pieces(pieces), chunk_size as int)),
{
    if sections.len() == 0 {
        return Vec::new();
    }
    let page_id = url_uuid(url);
    let links = page_link_map_of(sections, navigation_links);
    let base = page_base_meta_of(metadata, url, embedded_at, &page_id, page_title, navigation_links);
    let text = page_text_of(sections);
    let prose = page_prose_of(text.as_str(), pieces, chunk_size, chunk_overlap);
    let codes = code_entries_of(sections);
    let drafts = draft_chunks(url, page_title, &base, &prose, &codes);
    if drafts.len() == 0 {
        return Vec::new();
    }
    let r = link_drafts(&drafts, &links);
    proof {
        let pv = views(prose@);
        let cv = entry_views(codes@);
        let bv = meta_view(base@);
        assert forall|k: int| #![trigger r@[k]] 0 <= k < r@.len() implies id_meta(r@, k - 1) == id_meta(drafts@, k - 1) && id_meta(r@, k + 1) == id_meta(drafts@, k + 1) by {
            if 0 <= k - 1 {
                assert(r@[k - 1].id@ == drafts@[k - 1].id@);
            }
            if k + 1 < r@.len() {
                assert(r@[k + 1].id@ == drafts@[k + 1].id@);
            }
        }

    }
    r
}

} // verus!
