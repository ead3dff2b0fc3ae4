//! Turning an uploaded document's content into document chunks: which
//! loader reads a file, and how text, CSV, JSON, XML, OpenDocument text,
//! HTML and spreadsheet contents become chunks. Reading the file (and the
//! binary formats' own decoding) happens at the caller; the chunking rules
//! are verified here.
use vstd::prelude::*;
use crate::text::{chars_of, string_of, trim_str, trim_spec, str_eq, concat_str, extend_str, utf8_lossy, utf8_lossy_spec};
use crate::seqtext::{join, join_strings, views, push_string};
use crate::document::{DocumentChunk, MetaValue, MetaVal, meta_view, decimal, decimal_string, digits, digits_string};
use crate::languages::{path_extension_of, path_extension, path_file_name, file_name_of};
use crate::sql::{to_lowercase, lower_spec, new_uuid_string};
use crate::xmltext::{extract_xml_text, text_state, xml_events_spec};
use crate::scrape::{is_noise_tag, any_noise};
use crate::dom::{DomView, DomKind, Want, dom_view, dom_spec, read_dom, elem_text, elem_text_of, ancestor_names, ancestor_names_of, first_wanted, first_wanted_of};
use crate::chunk_types::opt_view;

verus! {

// ---------------------------------------------------------------------------
// Choosing a loader
// ---------------------------------------------------------------------------

/// The loader that reads a file.
#[derive(Debug, Clone, Copy, PartialEq, Eq)]
pub enum LoaderKind {
    Text,
    Csv,
    Json,
    Xml,
    Html,
    Odt,
    Spreadsheet,
    Pdf,
    Docx,
}

/// How a file is loaded: the loader, the file's name and its document type.
#[derive(Debug, Clone, PartialEq)]
pub struct LoadPlan {
    pub kind: LoaderKind,
    pub file_name: String,
    pub doc_type: String,
}

/// A file's extension in lower case, empty when it has none.
pub open spec fn ext_key(path: Seq<char>) -> Seq<char> {
    match path_extension(path) {
        Some(e) => lower_spec(e),
        None => Seq::empty(),
    }
}

/// The loader for a lower-case extension.
pub open spec fn kind_for(ext: Seq<char>) -> LoaderKind {
    if ext == "csv"@ {
        LoaderKind::Csv
    } else if ext == "json"@ {
        LoaderKind::Json
    } else if ext == "xml"@ {
        LoaderKind::Xml
    } else if ext == "htm"@ || ext == "html"@ {
        LoaderKind::Html
    } else if ext == "odt"@ {
        LoaderKind::Odt
    } else if ext == "xlsx"@ || ext == "xls"@ || ext == "xlsb"@ || ext == "ods"@ {
        LoaderKind::Spreadsheet
    } else if ext == "pdf"@ {
        LoaderKind::Pdf
    } else if ext == "docx"@ || ext == "doc"@ {
        LoaderKind::Docx
    } else {
        LoaderKind::Text
    }
}

/// The document type recorded for a lower-case extension.
pub open spec fn doc_type_for(ext: Seq<char>) -> Seq<char> {
    match kind_for(ext) {
        LoaderKind::Text => if ext.len() == 0 {
            "txt"@
        } else {
            ext
        },
        LoaderKind::Csv => "csv"@,
        LoaderKind::Json => "json"@,
        LoaderKind::Xml => "xml"@,
        LoaderKind::Html => "html"@,
        LoaderKind::Odt => "odt"@,
        LoaderKind::Spreadsheet => ext,
        LoaderKind::Pdf => "pdf"@,
        LoaderKind::Docx => "docx"@,
    }
}

fn eq_any(s: &str, a: &str, b: &str, c: &str, d: &str) -> (r: bool)
    ensures
        r == (s@ == a@ || s@ == b@ || s@ == c@ || s@ == d@),
{
    str_eq(s, a) || str_eq(s, b) || str_eq(s, c) || str_eq(s, d)
}

/// Chooses the loader for a file by its extension (compared in lower
/// case; files without a known extension are read as text), with the
/// file's name (`unknown` when the path has none) and document type.
pub fn loader_for(path: &str) -> (r: LoadPlan)
    ensures
        r.kind == kind_for(ext_key(path@)),
        r.doc_type@ == doc_type_for(ext_key(path@)),
        r.file_name@ == match file_name_of(path@) {
            Some(n) => n,
            None => "unknown"@,
        },
{
    let ext = match path_extension_of(path) {
        Some(e) => to_lowercase(e.as_str()),
        None => String::new(),
    };
    let file_name = match path_file_name(path) {
        Some(n) => n,
        None => "unknown".to_owned(),
    };
    let e = ext.as_str();
    let kind = if str_eq(e, "csv") {
        LoaderKind::Csv
    } else if str_eq(e, "json") {
        LoaderKind::Json
    } else if str_eq(e, "xml") {
        LoaderKind::Xml
    } else if str_eq(e, "htm") || str_eq(e, "html") {
        LoaderKind::Html
    } else if str_eq(e, "odt") {
        LoaderKind::Odt
    } else if eq_any(e, "xlsx", "xls", "xlsb", "ods") {
        LoaderKind::Spreadsheet
    } else if str_eq(e, "pdf") {
        LoaderKind::Pdf
    } else if str_eq(e, "docx") || str_eq(e, "doc") {
        LoaderKind::Docx
    } else {
        LoaderKind::Text
    };
    let doc_type = match kind {
        LoaderKind::Text => if e.is_empty() {
            "txt".to_owned()
        } else {
            e.to_owned()
        },
        LoaderKind::Csv => "csv".to_owned(),
        LoaderKind::Json => "json".to_owned(),
        LoaderKind::Xml => "xml".to_owned(),
        LoaderKind::Html => "html".to_owned(),
        LoaderKind::Odt => "odt".to_owned(),
        LoaderKind::Spreadsheet => e.to_owned(),
        LoaderKind::Pdf => "pdf".to_owned(),
        LoaderKind::Docx => "docx".to_owned(),
    };
    LoadPlan { kind, file_name, doc_type }
}

// ---------------------------------------------------------------------------
// Single-chunk documents
// ---------------------------------------------------------------------------

/// `r` is the chunk list of a one-chunk document: empty when the content is
/// blank, otherwise one chunk with a fresh id, index 0, no page and no
/// metadata.
pub open spec fn is_one_chunk(r: Seq<DocumentChunk>, file_name: Seq<char>, doc_type: Seq<char>, content: Seq<char>) -> bool {
    if trim_spec(content).len() == 0 {
        r.len() == 0
    } else {
        &&& r.len() == 1
        &&& crate::sql::is_uuid_v4_text(r[0].id@, true)
        &&& r[0].file_name@ == file_name
        &&& r[0].content@ == content
        &&& r[0].doc_type@ == doc_type
        &&& r[0].chunk_index == 0
        &&& r[0].page is None
        &&& r[0].metadata@.len() == 0
    }
}

/// A whole document as one chunk; none when its text is blank.
pub fn one_chunk(file_name: &str, doc_type: &str, content: String) -> (r: Vec<DocumentChunk>)
    ensures
        is_one_chunk(r@, file_name@, doc_type@, content@),
{
    let t = trim_str(content.as_str());
    if t.as_str().is_empty() {
        return Vec::new();
    }
    let id = new_uuid_string();
    let c = DocumentChunk::new(id.as_str(), file_name, content.as_str(), doc_type, 0);
    let mut r: Vec<DocumentChunk> = Vec::new();
    r.push(c);
    r
}

/// A text document: its bytes decoded (invalid UTF-8 replaced) as one chunk.
pub fn load_text_bytes(bytes: &[u8], file_name: &str, doc_type: &str) -> (r: Vec<DocumentChunk>)
    ensures
        is_one_chunk(r@, file_name@, doc_type@, utf8_lossy_spec(bytes@)),
{
    one_chunk(file_name, doc_type, utf8_lossy(bytes))
}

/// An XML document: its text nodes joined by spaces, as one chunk.
pub fn load_xml_bytes(bytes: &[u8], file_name: &str) -> (r: Vec<DocumentChunk>)
    ensures
        is_one_chunk(r@, file_name@, "xml"@, text_state(xml_events_spec(bytes@)).0),
{
    one_chunk(file_name, "xml", extract_xml_text(bytes))
}

/// An OpenDocument text: the text of its `content.xml`, as one chunk.
pub fn load_odt_content(content_xml: &[u8], file_name: &str) -> (r: Vec<DocumentChunk>)
    ensures
        is_one_chunk(r@, file_name@, "odt"@, text_state(xml_events_spec(content_xml@)).0),
{
    one_chunk(file_name, "odt", extract_xml_text(content_xml))
}

// ---------------------------------------------------------------------------
// JSON
// ---------------------------------------------------------------------------

/// What `serde_json::from_slice::<Value>` then `to_string_pretty` give for
/// the bytes: the pretty-printed JSON, or `None` when they are not JSON.
pub uninterp spec fn json_pretty_spec(bytes: Seq<u8>) -> Option<Seq<char>>;

/// A lower-case hexadecimal digit.
pub open spec fn lower_hex_digit(d: int) -> char {
    if d < 10 {
        (d + 48) as char
    } else {
        (d + 87) as char
    }
}

/// How serde_json writes a character inside a string literal: `"` and `\`
/// behind a backslash; backspace, tab, line feed, form feed and carriage
/// return as `\b`, `\t`, `\n`, `\f`, `\r`; the other control characters
/// below U+0020 as `\u00` and two lower-case hex digits; anything else as
/// itself.
pub open spec fn json_escape_char(c: char) -> Seq<char> {
    if c == '"' {
        seq!['\\', '"']
    } else if c == '\\' {
        seq!['\\', '\\']
    } else if c == '\u{8}' {
        seq!['\\', 'b']
    } else if c == '\t' {
        seq!['\\', 't']
    } else if c == '\n' {
        seq!['\\', 'n']
    } else if c == '\u{c}' {
        seq!['\\', 'f']
    } else if c == '\r' {
        seq!['\\', 'r']
    } else if (c as int) < 0x20 {
        seq!['\\', 'u', '0', '0', lower_hex_digit((c as int) / 16), lower_hex_digit((c as int) % 16)]
    } else {
        seq![c]
    }
}

/// The escaped characters of a string literal's body.
pub open spec fn json_escape(s: Seq<char>) -> Seq<char>
    decreases s.len(),
{
    if s.len() == 0 {
        Seq::empty()
    } else {
        json_escape(s.drop_last()) + json_escape_char(s.last())
    }
}

/// What `to_string_pretty(&Value::String(s))` gives: the text as a JSON
/// string literal, between double quotes with its characters escaped.
pub open spec fn json_string_spec(s: Seq<char>) -> Seq<char> {
    seq!['"'] + json_escape(s) + seq!['"']
}

/// `serde_json::from_slice::<Value>` and `serde_json::to_string_pretty`.
/// The contract names the result: a function of the bytes alone.
#[verifier::external_body]
fn json_pretty(bytes: &[u8]) -> (r: Option<String>)
    ensures
        opt_view(r) == json_pretty_spec(bytes@),
{
    match serde_json::from_slice::<serde_json::Value>(bytes) {
        Ok(v) => serde_json::to_string_pretty(&v).ok(),
        Err(_) => None,
    }
}

/// `serde_json::to_string_pretty` of a JSON string value: serde_json's
/// `format_escaped_str` writes the quoted, escaped text (see
/// `json_string_spec`), and writing into memory does not fail.
#[verifier::external_body]
pub(crate) fn json_string(s: String) -> (r: String)
    ensures
        r@ == json_string_spec(s@),
{
    serde_json::to_string_pretty(&serde_json::Value::String(s)).unwrap_or_default()
}

/// The text a JSON document is stored as: pretty-printed, or (when it is
/// not JSON) its decoded text as a JSON string.
pub open spec fn json_document_text(bytes: Seq<u8>) -> Seq<char> {
    match json_pretty_spec(bytes) {
        Some(p) => p,
        None => json_string_spec(utf8_lossy_spec(bytes)),
    }
}

/// A JSON document, pretty-printed, as one chunk.
pub fn load_json_bytes(bytes: &[u8], file_name: &str) -> (r: Vec<DocumentChunk>)
    ensures
        is_one_chunk(r@, file_name@, "json"@, json_document_text(bytes@)),
{
    let pretty = match json_pretty(bytes) {
        Some(p) => p,
        None => json_string(utf8_lossy(bytes)),
    };
    one_chunk(file_name, "json", pretty)
}

// ---------------------------------------------------------------------------
// HTML
// ---------------------------------------------------------------------------

/// The text of a page's leaf elements: those outside noise subtrees, their
/// text trimmed, the non-blank ones joined by single spaces.
pub open spec fn leaf_text(items: Seq<(bool, Seq<char>)>) -> Seq<char>
    decreases items.len(),
{
    if items.len() == 0 {
        Seq::empty()
    } else {
        let prev = leaf_text(items.drop_last());
        let t = trim_spec(items.last().1);
        if items.last().0 || t.len() == 0 {
            prev
        } else if prev.len() == 0 {
            t
        } else {
            prev + seq![' '] + t
        }
    }
}

pub open spec fn leaf_views(v: Seq<(bool, String)>) -> Seq<(bool, Seq<char>)> {
    Seq::new(v.len(), |i: int| (v[i].0, v[i].1@))
}

/// The leaf text of a page, given for each leaf element whether it lies
/// in a noise subtree and its text.
pub fn join_leaf_texts(items: &Vec<(bool, String)>) -> (r: String)
    ensures
        r@ == leaf_text(leaf_views(items@)),
{
    let ghost iv = leaf_views(items@);
    let mut text = String::new();
    let mut i: usize = 0;
    while i < items.len()
        invariant
            i <= items.len(),
            iv == leaf_views(items@),
            text@ == leaf_text(iv.take(i as int)),
        decreases items.len() - i,
    {
        assert(iv.take(i + 1).drop_last() =~= iv.take(i as int));
        assert(iv.take(i + 1).last() == (items@[i as int].0, items@[i as int].1@));
        let t = trim_str(items[i].1.as_str());
        if !items[i].0 && !t.as_str().is_empty() {
            if text.as_str().is_empty() {
                text = t;
            } else {
                let spaced = concat_str(text.as_str(), " ");
                proof {
                    reveal_strlit(" ");
                }
                text = concat_str(spaced.as_str(), t.as_str());
            }
        }
        i += 1;
    }
    assert(iv.take(items.len() as int) =~= iv);
    text
}

/// The paragraph-like, heading and code tags an HTML document's text is
/// read from.
pub open spec fn leaf_tag(n: Seq<char>) -> bool {
    n == "h1"@ || n == "h2"@ || n == "h3"@ || n == "h4"@ || n == "h5"@ || n == "h6"@ || n == "p"@ || n == "li"@
        || n == "td"@ || n == "th"@ || n == "blockquote"@ || n == "figcaption"@ || n == "dd"@ || n == "dt"@
        || n == "caption"@ || n == "summary"@ || n == "pre"@ || n == "code"@
}

/// The tags an HTML document's text is read from: the headings `h1` to
/// `h6`, `p`, `li`, `td`, `th`, `blockquote`, `figcaption`, `dd`, `dt`,
/// `caption`, `summary`, and the code tags `pre` and `code`.
pub open spec fn html_text_tags() -> Seq<Seq<char>> {
    seq!["h1"@, "h2"@, "h3"@, "h4"@, "h5"@, "h6"@, "p"@, "li"@, "td"@, "th"@, "blockquote"@, "figcaption"@, "dd"@, "dt"@, "caption"@, "summary"@, "pre"@, "code"@]
}

/// Law: an element's text is read from an HTML document exactly when its
/// tag is one of `html_text_tags`; list items, table cells and the other
/// text tags among them.
pub proof fn lemma_html_text_tags(n: Seq<char>)
    ensures
        leaf_tag(n) <==> html_text_tags().contains(n),
{
    let t = html_text_tags();
    assert(t[0] == "h1"@);
    assert(t[1] == "h2"@);
    assert(t[2] == "h3"@);
    assert(t[3] == "h4"@);
    assert(t[4] == "h5"@);
    assert(t[5] == "h6"@);
    assert(t[6] == "p"@);
    assert(t[7] == "li"@);
    assert(t[8] == "td"@);
    assert(t[9] == "th"@);
    assert(t[10] == "blockquote"@);
    assert(t[11] == "figcaption"@);
    assert(t[12] == "dd"@);
    assert(t[13] == "dt"@);
    assert(t[14] == "caption"@);
    assert(t[15] == "summary"@);
    assert(t[16] == "pre"@);
    assert(t[17] == "code"@);
    if html_text_tags().contains(n) {
        let i = choose|i: int| 0 <= i < t.len() && t[i] == n;
        assert(0 <= i < 18);
    }
}

fn leaf_tag_exec(n: &str) -> (r: bool)
    ensures
        r == leaf_tag(n@),
{
    str_eq(n, "h1") || str_eq(n, "h2") || str_eq(n, "h3") || str_eq(n, "h4") || str_eq(n, "h5") || str_eq(n, "h6")
        || str_eq(n, "p") || str_eq(n, "li") || str_eq(n, "td") || str_eq(n, "th") || str_eq(n, "blockquote")
        || str_eq(n, "figcaption") || str_eq(n, "dd") || str_eq(n, "dt") || str_eq(n, "caption")
        || str_eq(n, "summary") || str_eq(n, "pre") || str_eq(n, "code")
}

/// The leaf elements under a node at depth `d`, from node `j` on: whether
/// an element ancestor is page chrome, and their text.
pub open spec fn leaf_scan(t: Seq<DomView>, d: int, j: int) -> Seq<(bool, Seq<char>)>
    decreases t.len() - j,
{
    if j < 0 || j >= t.len() || t[j].depth <= d {
        Seq::empty()
    } else {
        (if t[j].kind == DomKind::Element && leaf_tag(t[j].name) {
            seq![(any_noise(ancestor_names(t, j)), elem_text(t, j))]
        } else {
            Seq::empty()
        }) + leaf_scan(t, d, j + 1)
    }
}

/// The leaf elements of a document's container (its first `main`,
/// `article` or `body`); none without one.
pub open spec fn html_leaf_items(t: Seq<DomView>) -> Seq<(bool, Seq<char>)> {
    match first_wanted(t, 0, Want::Container) {
        Some(c) => leaf_scan(t, t[c].depth as int, c + 1),
        None => Seq::empty(),
    }
}

proof fn lemma_occurs_extends(a: Seq<char>, b: Seq<char>, x: Seq<char>, i: int)
    requires
        crate::text::occurs_at(a, x, i),
    ensures
        crate::text::occurs_at(a + b, x, i),
{
    assert((a + b).subrange(i, i + x.len()) =~= a.subrange(i, i + x.len()));
}

/// The joined text holds the trimmed text of every item outside page
/// chrome.
proof fn lemma_leaf_text_holds(items: Seq<(bool, Seq<char>)>, k: int)
    requires
        0 <= k < items.len(),
        !items[k].0,
        trim_spec(items[k].1).len() > 0,
    ensures
        crate::text::contains_spec(leaf_text(items), trim_spec(items[k].1)),
    decreases items.len(),
{
    let d = items.drop_last();
    let prev = leaf_text(d);
    let x = trim_spec(items[k].1);
    if k == items.len() - 1 {
        if prev.len() == 0 {
            assert(leaf_text(items) == x);
            assert(x.subrange(0, x.len() as int) =~= x);
            assert(crate::text::occurs_at(leaf_text(items), x, 0));
        } else {
            let r = prev + seq![' '] + x;
            assert(leaf_text(items) == r);
            assert(r.subrange(prev.len() + 1int, r.len() as int) =~= x);
            assert(crate::text::occurs_at(r, x, prev.len() + 1int));
        }
    } else {
        assert(d[k] == items[k]);
        lemma_leaf_text_holds(d, k);
        let i = choose|i: int| crate::text::occurs_at(prev, x, i);
        let t = trim_spec(items.last().1);
        if !(items.last().0 || t.len() == 0) && prev.len() > 0 {
            lemma_occurs_extends(prev, seq![' '] + t, x, i);
            assert(prev + seq![' '] + t =~= prev + (seq![' '] + t));
            assert(crate::text::occurs_at(leaf_text(items), x, i));
        } else if !(items.last().0 || t.len() == 0) {
            assert(prev.len() == 0);
            assert(false);
        }
    }
}

proof fn lemma_leaf_scan_has(t: Seq<DomView>, d: int, j: int, m: int)
    requires
        0 <= j <= m < t.len(),
        forall|q: int| j <= q <= m ==> #[trigger] t[q].depth > d,
        t[m].kind == DomKind::Element,
        leaf_tag(t[m].name),
    ensures
        leaf_scan(t, d, j).contains((any_noise(ancestor_names(t, m)), elem_text(t, m))),
    decreases m - j,
{
    let item = (any_noise(ancestor_names(t, m)), elem_text(t, m));
    assert(t[j].depth > d);
    let head = if t[j].kind == DomKind::Element && leaf_tag(t[j].name) {
        seq![(any_noise(ancestor_names(t, j)), elem_text(t, j))]
    } else {
        Seq::empty()
    };
    assert(leaf_scan(t, d, j) == head + leaf_scan(t, d, j + 1));
    if j == m {
        assert(leaf_scan(t, d, j)[0] == item);
    } else {
        lemma_leaf_scan_has(t, d, j + 1, m);
        let tail = leaf_scan(t, d, j + 1);
        let i = choose|i: int| 0 <= i < tail.len() && tail[i] == item;
        assert(leaf_scan(t, d, j)[head.len() + i] == item);
    }
}

proof fn lemma_first_wanted_at_least(t: Seq<DomView>, j: int, w: Want)
    requires
        0 <= j,
    ensures
        first_wanted(t, j, w) matches Some(c) ==> j <= c < t.len(),
    decreases t.len() - j,
{
    if j < t.len() && !crate::dom::wanted(t[j], w) {
        lemma_first_wanted_at_least(t, j + 1, w);
    }
}

/// Law: the text loaded from an HTML document holds the trimmed text of
/// every text element (see `html_text_tags`: a paragraph, list item, table
/// cell, heading, code block or other text tag) inside its container and
/// outside page chrome, unless that text is blank.
pub proof fn lemma_html_text_keeps_elements(t: Seq<DomView>, c: int, m: int)
    requires
        first_wanted(t, 0, Want::Container) == Some(c),
        c < m < t.len(),
        forall|q: int| c < q <= m ==> #[trigger] t[q].depth > t[c].depth,
        t[m].kind == DomKind::Element,
        html_text_tags().contains(t[m].name),
        !any_noise(ancestor_names(t, m)),
        trim_spec(elem_text(t, m)).len() > 0,
    ensures
        crate::text::contains_spec(leaf_text(html_leaf_items(t)), trim_spec(elem_text(t, m))),
{
    lemma_html_text_tags(t[m].name);
    lemma_first_wanted_at_least(t, 0, Want::Container);
    lemma_leaf_scan_has(t, t[c].depth as int, c + 1, m);
    let items = html_leaf_items(t);
    let item = (any_noise(ancestor_names(t, m)), elem_text(t, m));
    let k = choose|k: int| 0 <= k < items.len() && items[k] == item;
    lemma_leaf_text_holds(items, k);
}

fn in_noise_exec(names: &Vec<String>) -> (r: bool)
    ensures
        r == any_noise(views(names@)),
{
    let mut i: usize = 0;
    while i < names.len()
        invariant
            i <= names@.len(),
            forall|k: int| 0 <= k < i ==> !is_noise_tag(#[trigger] views(names@)[k]),
        decreases names.len() - i,
    {
        if noise_name(names[i].as_str()) {
            assert(is_noise_tag(views(names@)[i as int]));
            return true;
        }
        i += 1;
    }
    false
}

fn noise_name(n: &str) -> (r: bool)
    ensures
        r == is_noise_tag(n@),
{
    str_eq(n, "script") || str_eq(n, "style") || str_eq(n, "nav") || str_eq(n, "footer") || str_eq(n, "header")
        || str_eq(n, "aside")
}

/// An HTML document's text as one chunk: the paragraph-like, heading and
/// code elements of its `main`, `article` or `body` (the first found) not
/// inside script, style, navigation, header, footer or aside elements.
pub fn load_html_text(html: &str, file_name: &str) -> (r: Vec<DocumentChunk>)
    ensures
        is_one_chunk(r@, file_name@, "html"@, leaf_text(html_leaf_items(dom_spec(html@)))),
{
    let t = read_dom(html);
    let ghost tv = dom_view(t@);
    let mut items: Vec<(bool, String)> = Vec::new();
    match first_wanted_of(&t, Want::Container) {
        Some(c) => {
            assert(tv[c as int] == t@[c as int]@);
            let d = t[c].depth;
            let n = t.len();
            let mut j = c + 1;
            while j < t.len() && t[j].depth > d
                invariant
                    c < j <= t@.len(),
                    tv == dom_view(t@),
                    d == tv[c as int].depth,
                    leaf_views(items@) + leaf_scan(tv, d as int, j as int) == leaf_scan(tv, d as int, c + 1),
                decreases t.len() - j,
            {
                assert(tv[j as int] == t@[j as int]@);
                let ghost before = leaf_views(items@);
                if t[j].kind == DomKind::Element && leaf_tag_exec(t[j].name.as_str()) {
                    let names = ancestor_names_of(&t, j);
                    let in_noise = in_noise_exec(&names);
                    let text = elem_text_of(&t, j);
                    let ghost item = (in_noise, text@);
                    items.push((in_noise, text));
                    assert(leaf_views(items@) =~= before.push(item));
                }
                assert(before + leaf_scan(tv, d as int, j as int) =~= leaf_views(items@) + leaf_scan(tv, d as int, j + 1));
                j += 1;
            }
            proof {
                if j < t@.len() {
                    assert(tv[j as int] == t@[j as int]@);
                }
                assert(leaf_views(items@) + Seq::<(bool, Seq<char>)>::empty() =~= leaf_views(items@));
            }
        },
        None => {
            assert(leaf_views(items@) =~= Seq::<(bool, Seq<char>)>::empty());
        },
    }
    let text = join_leaf_texts(&items);
    one_chunk(file_name, "html", text)
}

// ---------------------------------------------------------------------------
// CSV
// ---------------------------------------------------------------------------

/// What the `csv` reader (headers on, flexible rows) gives for the bytes:
/// the header row and each record (`None` for a record that does not
/// read), or the error that stopped it reading the header row.
pub uninterp spec fn csv_table_spec(bytes: Seq<u8>) -> Result<(Seq<Seq<char>>, Seq<Option<Seq<Seq<char>>>>), Seq<char>>;

pub open spec fn rows_view(v: Seq<Option<Vec<String>>>) -> Seq<Option<Seq<Seq<char>>>> {
    Seq::new(v.len(), |i: int| match v[i] {
        Some(r) => Some(views(r@)),
        None => None,
    })
}

/// `csv::ReaderBuilder` with `has_headers(true)` and `flexible(true)` over
/// the bytes: `headers`, then every item of `records`, fields as text. The
/// contract names the result: a function of the bytes alone.
#[verifier::external_body]
fn read_csv(bytes: &[u8]) -> (r: Result<(Vec<String>, Vec<Option<Vec<String>>>), String>)
    ensures
        match r {
            Ok((h, rows)) => csv_table_spec(bytes@) == Ok::<(Seq<Seq<char>>, Seq<Option<Seq<Seq<char>>>>), Seq<char>>((views(h@), rows_view(rows@))),
            Err(e) => csv_table_spec(bytes@) == Err::<(Seq<Seq<char>>, Seq<Option<Seq<Seq<char>>>>), Seq<char>>(e@),
        },
{
    let mut reader = csv::ReaderBuilder::new().has_headers(true).flexible(true).from_reader(bytes);
    let headers: Vec<String> = match reader.headers() {
        Ok(h) => h.iter().map(str::to_string).collect(),
        Err(e) => return Err(e.to_string()),
    };
    let rows = reader.records().map(|r| r.ok().map(|rec| rec.iter().map(Into::into).collect())).collect();
    Ok((headers, rows))
}

/// The records that read, in order.
pub open spec fn good_rows(rows: Seq<Option<Seq<Seq<char>>>>) -> Seq<Seq<Seq<char>>>
    decreases rows.len(),
{
    if rows.len() == 0 {
        Seq::empty()
    } else {
        let prev = good_rows(rows.drop_last());
        match rows.last() {
            Some(r) => prev.push(r),
            None => prev,
        }
    }
}

/// `<column index>: <header>: <value>`.
pub open spec fn csv_line(i: int, h: Seq<char>, v: Seq<char>) -> Seq<char> {
    decimal(i) + ": "@ + h + ": "@ + v
}

/// The text of row number `n` (from 1): `row <n>: ` and, one per line, the
/// columns present in both the header row and the record.
pub open spec fn csv_content(n: int, headers: Seq<Seq<char>>, row: Seq<Seq<char>>) -> Seq<char> {
    let k = if headers.len() <= row.len() {
        headers.len()
    } else {
        row.len()
    };
    "row "@ + decimal(n) + ": \n"@ + join(Seq::new(k, |i: int| csv_line(i, headers[i], row[i])), "\n"@)
}

/// `c` is the chunk of the `idx`-th record (from 0).
pub open spec fn is_csv_chunk(c: DocumentChunk, file_name: Seq<char>, headers: Seq<Seq<char>>, row: Seq<Seq<char>>, idx: int) -> bool {
    &&& crate::sql::is_uuid_v4_text(c.id@, true)
    &&& c.file_name@ == file_name
    &&& c.content@ == csv_content(idx + 1, headers, row)
    &&& c.doc_type@ == "csv"@
    &&& c.chunk_index == idx
    &&& c.page is None
    &&& meta_view(c.metadata@) == seq![("row"@, MetaVal::Int(idx + 1))]
}

fn csv_row_content(n: i64, headers: &Vec<String>, row: &Vec<String>) -> (r: String)
    requires
        n >= 0,
    ensures
        r@ == csv_content(n as int, views(headers@), views(row@)),
{
    let k = if headers.len() <= row.len() {
        headers.len()
    } else {
        row.len()
    };
    let mut lines: Vec<String> = Vec::new();
    let mut i: usize = 0;
    while i < k
        invariant
            i <= k,
            k <= headers.len(),
            k <= row.len(),
            views(lines@) == Seq::new(i as nat, |j: int| csv_line(j, views(headers@)[j], views(row@)[j])),
        decreases k - i,
    {
        let idx = digits_string(i as u64);
        let mut v = idx;
        extend_str(&mut v, ": ");
        extend_str(&mut v, headers[i].as_str());
        extend_str(&mut v, ": ");
        extend_str(&mut v, row[i].as_str());
        assert(v@ =~= csv_line(i as int, views(headers@)[i as int], views(row@)[i as int]));
        let ghost before = views(lines@);
        push_string(&mut lines, string_of(&v));
        i += 1;
        assert(views(lines@) =~= Seq::new(i as nat, |j: int| csv_line(j, views(headers@)[j], views(row@)[j])));
    }
    let body = join_strings(&lines, "\n");
    let num = decimal_string(n);
    let mut v: Vec<char> = Vec::new();
    extend_str(&mut v, "row ");
    extend_str(&mut v, num.as_str());
    extend_str(&mut v, ": \n");
    extend_str(&mut v, body.as_str());
    assert(Seq::new(k as nat, |j: int| csv_line(j, views(headers@)[j], views(row@)[j])) =~= Seq::new(
        k as nat,
        |j: int| csv_line(j, views(headers@)[j], views(row@)[j]),
    ));
    string_of(&v)
}

/// The chunks of the records of a CSV file: one per record, numbered from
/// 0, each with its row number (from 1) as `row` metadata.
pub fn csv_chunks(file_name: &str, headers: &Vec<String>, rows: &Vec<Vec<String>>) -> (r: Vec<DocumentChunk>)
    requires
        rows@.len() < i64::MAX,
    ensures
        r@.len() == rows@.len(),
        forall|k: int| 0 <= k < r@.len() ==> is_csv_chunk(#[trigger] r@[k], file_name@, views(headers@), views(rows@[k]@), k),
{
    let mut out: Vec<DocumentChunk> = Vec::new();
    let mut k: usize = 0;
    while k < rows.len()
        invariant
            k <= rows.len(),
            rows@.len() < i64::MAX,
            out@.len() == k,
            forall|q: int| 0 <= q < k ==> is_csv_chunk(#[trigger] out@[q], file_name@, views(headers@), views(rows@[q]@), q),
        decreases rows.len() - k,
    {
        let idx = k as i64;
        let content = csv_row_content(idx + 1, headers, &rows[k]);
        let id = new_uuid_string();
        let mut c = DocumentChunk::new(id.as_str(), file_name, content.as_str(), "csv", idx);
        c.insert_metadata("row", MetaValue::Int(idx + 1));
        assert(meta_view(c.metadata@) =~= seq![("row"@, MetaVal::Int(idx + 1))]);
        out.push(c);
        k += 1;
    }
    out
}

/// A CSV file as one chunk per record that reads; the reader's message when
/// the header row does not read.
pub fn load_csv_bytes(bytes: &[u8], file_name: &str) -> (r: Result<Vec<DocumentChunk>, String>)
    ensures
        match r {
            Ok(cs) => csv_table_spec(bytes@) matches Ok((h, rows)) && {
                &&& cs@.len() == good_rows(rows).len()
                &&& forall|k: int| 0 <= k < cs@.len() ==> is_csv_chunk(#[trigger] cs@[k], file_name@, h, good_rows(rows)[k], k)
            },
            Err(e) => csv_table_spec(bytes@) == Err::<(Seq<Seq<char>>, Seq<Option<Seq<Seq<char>>>>), Seq<char>>(e@)
                || (csv_table_spec(bytes@) is Ok && e@ == "too many rows"@),
        },
{
    let (headers, rows) = match read_csv(bytes) {
        Ok(t) => t,
        Err(e) => {
            return Err(e);
        },
    };
    let ghost rv = rows_view(rows@);
    let mut good: Vec<Vec<String>> = Vec::new();
    let mut i: usize = 0;
    while i < rows.len()
        invariant
            i <= rows.len(),
            rv == rows_view(rows@),
            Seq::new(good@.len(), |j: int| views(good@[j]@)) == good_rows(rv.take(i as int)),
        decreases rows.len() - i,
    {
        assert(rv.take(i + 1).drop_last() =~= rv.take(i as int));
        let ghost before = Seq::new(good@.len(), |j: int| views(good@[j]@));
        match &rows[i] {
            Some(r) => {
                let copy = crate::chunk_types::copy_strings(r);
                good.push(copy);
                assert(Seq::new(good@.len(), |j: int| views(good@[j]@)) =~= before.push(views(r@)));
            },
            None => {},
        }
        i += 1;
    }
    assert(rv.take(rows.len() as int) =~= rv);
    if (good.len() as u64) >= 9223372036854775807u64 {
        return Err("too many rows".to_owned());
    }
    Ok(csv_chunks(file_name, &headers, &good))
}

// ---------------------------------------------------------------------------
// Spreadsheets
// ---------------------------------------------------------------------------

/// The text of a sheet: `Sheet: <name>`, then each row's cells joined by
/// tabs, every line ending in a newline.
pub open spec fn sheet_text(name: Seq<char>, rows: Seq<Seq<Seq<char>>>) -> Seq<char>
    decreases rows.len(),
{
    if rows.len() == 0 {
        "Sheet: "@ + name + "\n"@
    } else {
        sheet_text(name, rows.drop_last()) + join(rows.last(), "\t"@) + "\n"@
    }
}

/// The sheets that hold more than blank text, in order, with their text.
pub open spec fn kept_sheets(sheets: Seq<(Seq<char>, Seq<Seq<Seq<char>>>)>) -> Seq<(Seq<char>, Seq<char>)>
    decreases sheets.len(),
{
    if sheets.len() == 0 {
        Seq::empty()
    } else {
        let prev = kept_sheets(sheets.drop_last());
        let t = sheet_text(sheets.last().0, sheets.last().1);
        if trim_spec(t).len() == 0 {
            prev
        } else {
            prev.push((sheets.last().0, t))
        }
    }
}

pub open spec fn sheets_view(v: Seq<(String, Vec<Vec<String>>)>) -> Seq<(Seq<char>, Seq<Seq<Seq<char>>>)> {
    Seq::new(v.len(), |i: int| (v[i].0@, Seq::new(v[i].1@.len(), |j: int| views(v[i].1@[j]@))))
}

fn sheet_text_of(name: &String, rows: &Vec<Vec<String>>) -> (r: String)
    ensures
        r@ == sheet_text(name@, Seq::new(rows@.len(), |j: int| views(rows@[j]@))),
{
    let ghost rs = Seq::new(rows@.len(), |j: int| views(rows@[j]@));
    let mut v: Vec<char> = Vec::new();
    extend_str(&mut v, "Sheet: ");
    extend_str(&mut v, name.as_str());
    extend_str(&mut v, "\n");
    proof {
        reveal_strlit("Sheet: ");
        reveal_strlit("\n");
        assert(rs.take(0) =~= Seq::<Seq<Seq<char>>>::empty());
    }
    let mut i: usize = 0;
    while i < rows.len()
        invariant
            i <= rows.len(),
            rs == Seq::new(rows@.len(), |j: int| views(rows@[j]@)),
            v@ == sheet_text(name@, rs.take(i as int)),
        decreases rows.len() - i,
    {
        assert(rs.take(i + 1).drop_last() =~= rs.take(i as int));
        let line = join_strings(&rows[i], "\t");
        extend_str(&mut v, line.as_str());
        extend_str(&mut v, "\n");
        i += 1;
    }
    assert(rs.take(rows.len() as int) =~= rs);
    string_of(&v)
}

/// A spreadsheet as one chunk per sheet that holds more than blank text:
/// the sheet's text, numbered from 0 over the kept sheets, with the sheet's
/// name as `sheet` metadata.
pub fn spreadsheet_chunks(file_name: &str, doc_type: &str, sheets: &Vec<(String, Vec<Vec<String>>)>) -> (r: Vec<DocumentChunk>)
    requires
        sheets@.len() < i64::MAX,
    ensures
        r@.len() == kept_sheets(sheets_view(sheets@)).len(),
        forall|k: int| 0 <= k < r@.len() ==> {
            let s = #[trigger] r@[k];
            &&& crate::sql::is_uuid_v4_text(s.id@, true)
            &&& s.file_name@ == file_name@
            &&& s.content@ == kept_sheets(sheets_view(sheets@))[k].1
            &&& s.doc_type@ == doc_type@
            &&& s.chunk_index == k
            &&& s.page is None
            &&& meta_view(s.metadata@) == seq![("sheet"@, MetaVal::Text(kept_sheets(sheets_view(sheets@))[k].0))]
        },
{
    let ghost sv = sheets_view(sheets@);
    let mut out: Vec<DocumentChunk> = Vec::new();
    let mut i: usize = 0;
    while i < sheets.len()
        invariant
            i <= sheets.len(),
            sheets@.len() < i64::MAX,
            sv == sheets_view(sheets@),
            out@.len() == kept_sheets(sv.take(i as int)).len(),
            out@.len() <= i,
            forall|k: int| 0 <= k < out@.len() ==> {
                let s = #[trigger] out@[k];
                &&& crate::sql::is_uuid_v4_text(s.id@, true)
                &&& s.file_name@ == file_name@
                &&& s.content@ == kept_sheets(sv.take(i as int))[k].1
                &&& s.doc_type@ == doc_type@
                &&& s.chunk_index == k
                &&& s.page is None
                &&& meta_view(s.metadata@) == seq![("sheet"@, MetaVal::Text(kept_sheets(sv.take(i as int))[k].0))]
            },
        decreases sheets.len() - i,
    {
        assert(sv.take(i + 1).drop_last() =~= sv.take(i as int));
        assert(sv.take(i + 1).last() == sv[i as int]);
        let text = sheet_text_of(&sheets[i].0, &sheets[i].1);
        let t = trim_str(text.as_str());
        if !t.as_str().is_empty() {
            let idx = out.len() as i64;
            let id = new_uuid_string();
            let mut c = DocumentChunk::new(id.as_str(), file_name, text.as_str(), doc_type, idx);
            c.insert_metadata("sheet", MetaValue::Text(sheets[i].0.clone()));
            assert(meta_view(c.metadata@) =~= seq![("sheet"@, MetaVal::Text(sheets@[i as int].0@))]);
            out.push(c);
        }
        i += 1;
    }
    assert(sv.take(sheets.len() as int) =~= sv);
    out
}

} // verus!
