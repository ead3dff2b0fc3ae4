//! Scraping a page's HTML into sections: the document is parsed into its
//! node list (see `dom`); what the sectioning reads of each selected
//! element is gathered here and handed to `assemble_sections`.
use vstd::prelude::*;
use crate::text::{chars_of, string_of, string_of_range, trim_str, trim_spec, str_eq, is_ws, is_whitespace, starts_with_spec, matches_at};
use crate::sections::{PageElement, assemble_sections, page_sections, section_views};
use crate::web::{WebSection, Link};
use crate::sections::{SectionView, section_view, link_views};
use crate::weburl::{WebUrl, UrlParts, normalize_url, normalized_url};
use crate::seqtext::views;
use crate::chunk_types::opt_view;
use crate::dom::{DomNode, DomView, DomKind, Want, dom_view, dom_spec, read_dom, attr_of, attr_value, elem_text, elem_text_of, ancestor_names, ancestor_names_of, first_wanted, first_wanted_of};
use crate::python_chunks::ints;

verus! {

// ---------------------------------------------------------------------------
// Code-block language from a class attribute
// ---------------------------------------------------------------------------

/// The whitespace-separated words of `s`, and whether `s` ends inside a word.
pub open spec fn words_state(s: Seq<char>) -> (Seq<Seq<char>>, bool)
    decreases s.len(),
{
    if s.len() == 0 {
        (Seq::empty(), false)
    } else {
        let prev = words_state(s.drop_last());
        let c = s.last();
        if is_ws(c) {
            (prev.0, false)
        } else if prev.1 && prev.0.len() > 0 {
            (prev.0.update(prev.0.len() - 1, prev.0.last().push(c)), true)
        } else {
            (prev.0.push(seq![c]), true)
        }
    }
}

/// `str::split_whitespace`.
pub open spec fn words(s: Seq<char>) -> Seq<Seq<char>> {
    words_state(s).0
}

/// The rest of the first word starting with `language-`.
pub open spec fn first_language(ws: Seq<Seq<char>>) -> Option<Seq<char>>
    decreases ws.len(),
{
    if ws.len() == 0 {
        None
    } else if starts_with_spec(ws[0], "language-"@) {
        Some(ws[0].skip(9))
    } else {
        first_language(ws.skip(1))
    }
}

pub fn split_words(v: &Vec<char>) -> (r: Vec<Vec<char>>)
    ensures
        crate::seqtext::vviews(r@) == words(v@),
{
    let mut r: Vec<Vec<char>> = Vec::new();
    let mut in_word = false;
    let mut i: usize = 0;
    while i < v.len()
        invariant
            i <= v.len(),
            (crate::seqtext::vviews(r@), in_word) == words_state(v@.take(i as int)),
        decreases v.len() - i,
    {
        let c = v[i];
        let ghost prev = crate::seqtext::vviews(r@);
        assert(v@.take(i + 1).drop_last() =~= v@.take(i as int));
        if is_whitespace(c) {
            in_word = false;
        } else if in_word && r.len() > 0 {
            let mut w = r.pop().unwrap();
            w.push(c);
            r.push(w);
            assert(crate::seqtext::vviews(r@) =~= prev.update(prev.len() - 1, prev.last().push(c)));
        } else {
            let mut w: Vec<char> = Vec::new();
            w.push(c);
            r.push(w);
            assert(crate::seqtext::vviews(r@) =~= prev.push(seq![c]));
            in_word = true;
        }
        i += 1;
    }
    assert(v@.take(v.len() as int) =~= v@);
    r
}

/// The language named by a `language-*` class, if any.
pub fn language_from_class(class: &str) -> (r: Option<String>)
    ensures
        match r {
            Some(l) => first_language(words(class@)) == Some(l@),
            None => first_language(words(class@)) is None,
        },
{
    let cv = chars_of(class);
    let ws = split_words(&cv);
    let prefix = chars_of("language-");
    proof {
        reveal_strlit("language-");
    }
    let mut k: usize = 0;
    assert(crate::seqtext::vviews(ws@).skip(0) =~= crate::seqtext::vviews(ws@));
    while k < ws.len()
        invariant
            k <= ws.len(),
            crate::seqtext::vviews(ws@) == words(class@),
            prefix@ == "language-"@,
            prefix@.len() == 9,
            first_language(crate::seqtext::vviews(ws@).skip(k as int)) == first_language(
                crate::seqtext::vviews(ws@),
            ),
        decreases ws.len() - k,
    {
        let ghost rest = crate::seqtext::vviews(ws@).skip(k as int);
        assert(rest[0] == ws@[k as int]@);
        assert(rest.skip(1) =~= crate::seqtext::vviews(ws@).skip(k + 1));
        let hit = matches_at(&ws[k], &prefix, 0);
        proof {
            if ws@[k as int]@.len() >= 9 {
                assert(ws@[k as int]@.subrange(0, 9) =~= ws@[k as int]@.take(9));
            }
        }
        assert(hit == starts_with_spec(rest[0], "language-"@));
        if hit {
            assert(first_language(rest) == Some(rest[0].skip(9)));
            let l = string_of_range(&ws[k], 9, ws[k].len());
            assert(ws@[k as int]@.skip(9) =~= ws@[k as int]@.subrange(9, ws@[k as int]@.len() as int));
            return Some(l);
        }
        k += 1;
    }
    assert(crate::seqtext::vviews(ws@).skip(ws.len() as int) =~= Seq::<Seq<char>>::empty());
    None
}

// ---------------------------------------------------------------------------
// Gathering the page's elements
// ---------------------------------------------------------------------------

/// `script`, `style`, `nav`, `footer`, `header` or `aside`.
pub open spec fn is_noise_tag(t: Seq<char>) -> bool {
    t == "script"@ || t == "style"@ || t == "nav"@ || t == "footer"@ || t == "header"@ || t == "aside"@
}

/// The page-chrome tags whose text is never kept: `script`, `style`,
/// `nav`, `footer`, `header`, `aside`.
pub open spec fn page_chrome_tags() -> Seq<Seq<char>> {
    seq!["script"@, "style"@, "nav"@, "footer"@, "header"@, "aside"@]
}

/// Law: text is dropped as page chrome exactly under the tags of
/// `page_chrome_tags`.
pub proof fn lemma_page_chrome_tags(n: Seq<char>)
    ensures
        is_noise_tag(n) <==> page_chrome_tags().contains(n),
{
    let t = page_chrome_tags();
    assert(t[0] == "script"@);
    assert(t[1] == "style"@);
    assert(t[2] == "nav"@);
    assert(t[3] == "footer"@);
    assert(t[4] == "header"@);
    assert(t[5] == "aside"@);
    if page_chrome_tags().contains(n) {
        let i = choose|i: int| 0 <= i < t.len() && t[i] == n;
        assert(0 <= i < 6);
    }
}

fn noise_tag(t: &str) -> (r: bool)
    ensures
        r == is_noise_tag(t@),
{
    str_eq(t, "script") || str_eq(t, "style") || str_eq(t, "nav") || str_eq(t, "footer") || str_eq(
        t,
        "header",
    ) || str_eq(t, "aside")
}

/// Whether any of the names is a noise tag.
pub open spec fn any_noise(names: Seq<Seq<char>>) -> bool {
    exists|k: int| 0 <= k < names.len() && is_noise_tag(#[trigger] names[k])
}

/// Whether the element or one of its ancestors is page chrome, from the
/// element's tag name and its ancestors' tag names (parent first).
fn is_in_noise(name: &str, ancestor_names: &Vec<String>) -> (r: bool)
    ensures
        r == (is_noise_tag(name@) || any_noise(views(ancestor_names@))),
{
    if noise_tag(name) {
        return true;
    }
    let mut i: usize = 0;
    while i < ancestor_names.len()
        invariant
            i <= ancestor_names@.len(),
            forall|k: int| 0 <= k < i ==> !is_noise_tag(#[trigger] views(ancestor_names@)[k]),
        decreases ancestor_names.len() - i,
    {
        if noise_tag(ancestor_names[i].as_str()) {
            assert(is_noise_tag(views(ancestor_names@)[i as int]));
            return true;
        }
        i += 1;
    }
    false
}

/// Whether a tag is one a page is sectioned by: headings `h1` and `h2`,
/// code blocks `pre`, and the leaf-text tags.
pub open spec fn section_tag(n: Seq<char>) -> bool {
    n == "h1"@ || n == "h2"@ || n == "pre"@ || n == "p"@ || n == "li"@ || n == "h3"@ || n == "h4"@ || n == "h5"@
        || n == "h6"@ || n == "td"@ || n == "th"@ || n == "blockquote"@ || n == "figcaption"@ || n == "dd"@
        || n == "dt"@ || n == "caption"@ || n == "summary"@
}

/// The tags a page's sections are built from: the headings `h1` to `h6`,
/// code blocks `pre`, and the text tags `p`, `li`, `td`, `th`, `blockquote`,
/// `figcaption`, `dd`, `dt`, `caption`, `summary`.
pub open spec fn sectioned_tags() -> Seq<Seq<char>> {
    seq!["h1"@, "h2"@, "pre"@, "p"@, "li"@, "h3"@, "h4"@, "h5"@, "h6"@, "td"@, "th"@, "blockquote"@, "figcaption"@, "dd"@, "dt"@, "caption"@, "summary"@]
}

/// Law: an element is read into the sections exactly when its tag is one
/// of `sectioned_tags`; list items, table cells, quotes and the other text
/// tags among them.
pub proof fn lemma_sectioned_tags(n: Seq<char>)
    ensures
        section_tag(n) <==> sectioned_tags().contains(n),
{
    let t = sectioned_tags();
    assert(t[0] == "h1"@);
    assert(t[1] == "h2"@);
    assert(t[2] == "pre"@);
    assert(t[3] == "p"@);
    assert(t[4] == "li"@);
    assert(t[5] == "h3"@);
    assert(t[6] == "h4"@);
    assert(t[7] == "h5"@);
    assert(t[8] == "h6"@);
    assert(t[9] == "td"@);
    assert(t[10] == "th"@);
    assert(t[11] == "blockquote"@);
    assert(t[12] == "figcaption"@);
    assert(t[13] == "dd"@);
    assert(t[14] == "dt"@);
    assert(t[15] == "caption"@);
    assert(t[16] == "summary"@);
    if sectioned_tags().contains(n) {
        let i = choose|i: int| 0 <= i < t.len() && t[i] == n;
        assert(0 <= i < 17);
    }
}

fn section_tag_exec(n: &str) -> (r: bool)
    ensures
        r == section_tag(n@),
{
    str_eq(n, "h1") || str_eq(n, "h2") || str_eq(n, "pre") || str_eq(n, "p") || str_eq(n, "li") || str_eq(n, "h3")
        || str_eq(n, "h4") || str_eq(n, "h5") || str_eq(n, "h6") || str_eq(n, "td") || str_eq(n, "th")
        || str_eq(n, "blockquote") || str_eq(n, "figcaption") || str_eq(n, "dd") || str_eq(n, "dt")
        || str_eq(n, "caption") || str_eq(n, "summary")
}

pub open spec fn is_section_elem(v: DomView) -> bool {
    v.kind == DomKind::Element && section_tag(v.name)
}

/// The section elements under a node at depth `d`, from node `j` on.
pub open spec fn sel_scan(t: Seq<DomView>, d: int, j: int) -> Seq<int>
    decreases t.len() - j,
{
    if j < 0 || j >= t.len() || t[j].depth <= d {
        Seq::empty()
    } else {
        (if is_section_elem(t[j]) {
            seq![j]
        } else {
            Seq::empty()
        }) + sel_scan(t, d, j + 1)
    }
}

/// Whether a section element lies under a node at depth `d`, from node `j`
/// on.
pub open spec fn any_section(t: Seq<DomView>, d: int, j: int) -> bool
    decreases t.len() - j,
{
    if j < 0 || j >= t.len() || t[j].depth <= d {
        false
    } else {
        is_section_elem(t[j]) || any_section(t, d, j + 1)
    }
}

/// Whether another section element lies inside element `j`.
fn has_selected_descendant(t: &Vec<DomNode>, j: usize) -> (r: bool)
    requires
        j < t@.len(),
    ensures
        r == any_section(dom_view(t@), t@[j as int].depth as int, j + 1),
{
    let ghost tv = dom_view(t@);
    let d = t[j].depth;
    let n = t.len();
    let mut m = j + 1;
    while m < t.len() && t[m].depth > d
        invariant
            j < m <= t@.len(),
            tv == dom_view(t@),
            d == t@[j as int].depth,
            any_section(tv, d as int, m as int) == any_section(tv, d as int, j + 1),
        decreases t.len() - m,
    {
        assert(tv[m as int] == t@[m as int]@);
        if t[m].kind == DomKind::Element && section_tag_exec(t[m].name.as_str()) {
            return true;
        }
        m += 1;
    }
    proof {
        if m < t@.len() {
            assert(tv[m as int] == t@[m as int]@);
        }
    }
    false
}

/// The language a class attribute names (an absent one counts as empty).
pub open spec fn class_language(class: Option<Seq<char>>) -> Option<Seq<char>> {
    first_language(words(match class {
        Some(c) => c,
        None => Seq::empty(),
    }))
}

/// The language of a code block: from its own class, else from the class
/// of its first `code` descendant (`code_class`); empty when neither names
/// one.
pub open spec fn block_language(own_class: Option<Seq<char>>, code_class: Option<Seq<char>>) -> Seq<char> {
    match class_language(own_class) {
        Some(l) => l,
        None => match class_language(code_class) {
            Some(l) => l,
            None => Seq::empty(),
        },
    }
}

fn class_language_of(class: &Option<String>) -> (r: Option<String>)
    ensures
        opt_view(r) == class_language(opt_view(*class)),
{
    match class {
        Some(c) => language_from_class(c.as_str()),
        None => {
            let r = language_from_class("");
            proof {
                reveal_strlit("");
            }
            r
        },
    }
}

/// The language of a code block from its own class attribute and that of
/// its first `code` descendant (see `block_language`).
fn code_language(own_class: &Option<String>, code_class: &Option<String>) -> (r: String)
    ensures
        r@ == block_language(opt_view(*own_class), opt_view(*code_class)),
{
    match class_language_of(own_class) {
        Some(l) => l,
        None => match class_language_of(code_class) {
            Some(l) => l,
            None => String::new(),
        },
    }
}

/// The `(href, anchor text)` pairs of the anchors that have an `href`.
pub open spec fn href_links(anchors: Seq<(Option<Seq<char>>, Seq<char>)>) -> Seq<(Seq<char>, Seq<char>)>
    decreases anchors.len(),
{
    if anchors.len() == 0 {
        Seq::empty()
    } else {
        let prev = href_links(anchors.drop_last());
        match anchors.last().0 {
            Some(h) => prev.push((h, anchors.last().1)),
            None => prev,
        }
    }
}

pub open spec fn anchor_views(v: Seq<(Option<String>, String)>) -> Seq<(Option<Seq<char>>, Seq<char>)> {
    Seq::new(v.len(), |i: int| (opt_view(v[i].0), v[i].1@))
}

pub open spec fn pair_views(v: Seq<(String, String)>) -> Seq<(Seq<char>, Seq<char>)> {
    Seq::new(v.len(), |i: int| (v[i].0@, v[i].1@))
}

/// The `(href, anchor text)` pairs of the links inside an element, from its
/// anchors' `href` values and texts in document order.
fn element_links(anchors: &Vec<(Option<String>, String)>) -> (r: Vec<(String, String)>)
    ensures
        pair_views(r@) == href_links(anchor_views(anchors@)),
{
    let ghost av = anchor_views(anchors@);
    let mut out: Vec<(String, String)> = Vec::new();
    let mut i: usize = 0;
    while i < anchors.len()
        invariant
            i <= anchors@.len(),
            av == anchor_views(anchors@),
            pair_views(out@) == href_links(av.take(i as int)),
        decreases anchors.len() - i,
    {
        assert(av.take(i + 1).drop_last() =~= av.take(i as int));
        assert(av.take(i + 1).last() == av[i as int]);
        let ghost before = pair_views(out@);
        match &anchors[i].0 {
            Some(h) => {
                let pair = (h.clone(), anchors[i].1.clone());
                out.push(pair);
                assert(pair_views(out@) =~= before.push((h@, anchors@[i as int].1@)));
            },
            None => {},
        }
        i += 1;
    }
    assert(av.take(anchors@.len() as int) =~= av);
    out
}

/// The `code` element first met under a node at depth `d`, from node `j`
/// on.
pub open spec fn first_code(t: Seq<DomView>, d: int, j: int) -> Option<int>
    decreases t.len() - j,
{
    if j < 0 || j >= t.len() || t[j].depth <= d {
        None
    } else if t[j].kind == DomKind::Element && t[j].name == "code"@ {
        Some(j)
    } else {
        first_code(t, d, j + 1)
    }
}

fn first_code_of(t: &Vec<DomNode>, i: usize) -> (r: Option<usize>)
    requires
        i < t@.len(),
    ensures
        match r {
            Some(k) => first_code(dom_view(t@), t@[i as int].depth as int, i + 1) == Some(k as int) && k < t@.len(),
            None => first_code(dom_view(t@), t@[i as int].depth as int, i + 1) is None,
        },
{
    let ghost tv = dom_view(t@);
    let d = t[i].depth;
    let n = t.len();
    let mut m = i + 1;
    while m < t.len() && t[m].depth > d
        invariant
            i < m <= t@.len(),
            tv == dom_view(t@),
            d == t@[i as int].depth,
            first_code(tv, d as int, m as int) == first_code(tv, d as int, i + 1),
        decreases t.len() - m,
    {
        assert(tv[m as int] == t@[m as int]@);
        if t[m].kind == DomKind::Element && str_eq(t[m].name.as_str(), "code") {
            return Some(m);
        }
        m += 1;
    }
    proof {
        if m < t@.len() {
            assert(tv[m as int] == t@[m as int]@);
        }
    }
    None
}

/// The anchors (`a` elements with an `href`) under a node at depth `d`,
/// from node `j` on: their `href` and text.
pub open spec fn anchor_scan(t: Seq<DomView>, d: int, j: int) -> Seq<(Option<Seq<char>>, Seq<char>)>
    decreases t.len() - j,
{
    if j < 0 || j >= t.len() || t[j].depth <= d {
        Seq::empty()
    } else {
        (if t[j].kind == DomKind::Element && t[j].name == "a"@ && attr_of(t, j, "href"@) is Some {
            seq![(attr_of(t, j, "href"@), elem_text(t, j))]
        } else {
            Seq::empty()
        }) + anchor_scan(t, d, j + 1)
    }
}

fn anchors_of(t: &Vec<DomNode>, i: usize) -> (r: Vec<(Option<String>, String)>)
    requires
        i < t@.len(),
    ensures
        anchor_views(r@) == anchor_scan(dom_view(t@), t@[i as int].depth as int, i + 1),
{
    let ghost tv = dom_view(t@);
    let d = t[i].depth;
    let n = t.len();
    let mut out: Vec<(Option<String>, String)> = Vec::new();
    let mut m = i + 1;
    while m < t.len() && t[m].depth > d
        invariant
            i < m <= t@.len(),
            tv == dom_view(t@),
            d == t@[i as int].depth,
            anchor_views(out@) + anchor_scan(tv, d as int, m as int) == anchor_scan(tv, d as int, i + 1),
        decreases t.len() - m,
    {
        assert(tv[m as int] == t@[m as int]@);
        let ghost before = anchor_views(out@);
        if t[m].kind == DomKind::Element && str_eq(t[m].name.as_str(), "a") {
            let href = attr_value(&t[m], "href");
            if href.is_some() {
                let text = elem_text_of(t, m);
                let ghost item = (opt_view(href), text@);
                out.push((href, text));
                assert(anchor_views(out@) =~= before.push(item));
                assert(before + anchor_scan(tv, d as int, m as int) =~= anchor_views(out@) + anchor_scan(tv, d as int, m + 1));
            } else {
                assert(before + anchor_scan(tv, d as int, m as int) =~= anchor_views(out@) + anchor_scan(tv, d as int, m + 1));
            }
        } else {
            assert(before + anchor_scan(tv, d as int, m as int) =~= anchor_views(out@) + anchor_scan(tv, d as int, m + 1));
        }
        m += 1;
    }
    proof {
        if m < t@.len() {
            assert(tv[m as int] == t@[m as int]@);
        }
        assert(anchor_views(out@) + Seq::<(Option<Seq<char>>, Seq<char>)>::empty() =~= anchor_views(out@));
    }
    out
}

/// The section elements inside the container element `c`.
fn section_elements_of(t: &Vec<DomNode>, c: usize) -> (r: Vec<usize>)
    requires
        c < t@.len(),
    ensures
        ints(r@) == sel_scan(dom_view(t@), t@[c as int].depth as int, c + 1),
        forall|k: int| 0 <= k < r@.len() ==> #[trigger] r@[k] < t@.len(),
{
    let ghost tv = dom_view(t@);
    let d = t[c].depth;
    let n = t.len();
    let mut out: Vec<usize> = Vec::new();
    let mut m = c + 1;
    while m < t.len() && t[m].depth > d
        invariant
            c < m <= t@.len(),
            tv == dom_view(t@),
            d == t@[c as int].depth,
            forall|k: int| 0 <= k < out@.len() ==> #[trigger] out@[k] < m,
            ints(out@) + sel_scan(tv, d as int, m as int) == sel_scan(tv, d as int, c + 1),
        decreases t.len() - m,
    {
        assert(tv[m as int] == t@[m as int]@);
        let ghost before = ints(out@);
        if t[m].kind == DomKind::Element && section_tag_exec(t[m].name.as_str()) {
            out.push(m);
            assert(ints(out@) =~= before.push(m as int));
        }
        assert(before + sel_scan(tv, d as int, m as int) =~= ints(out@) + sel_scan(tv, d as int, m + 1));
        m += 1;
    }
    proof {
        if m < t@.len() {
            assert(tv[m as int] == t@[m as int]@);
        }
        assert(ints(out@) + Seq::<int>::empty() =~= ints(out@));
    }
    out
}

/// The title of a page: the text of its first `title` element, trimmed;
/// empty when it has none.
pub open spec fn title_of(t: Seq<DomView>) -> Seq<char> {
    match first_wanted(t, 0, Want::Title) {
        Some(i) => trim_spec(elem_text(t, i)),
        None => Seq::empty(),
    }
}

/// Whether an element lies in page chrome: it, or an element ancestor, is
/// a noise tag.
pub open spec fn noise_at(t: Seq<DomView>, j: int) -> bool {
    is_noise_tag(t[j].name) || any_noise(ancestor_names(t, j))
}

proof fn lemma_sel_scan_has(t: Seq<DomView>, d: int, j: int, m: int)
    requires
        0 <= j <= m < t.len(),
        forall|q: int| j <= q <= m ==> #[trigger] t[q].depth > d,
        is_section_elem(t[m]),
    ensures
        sel_scan(t, d, j).contains(m),
    decreases m - j,
{
    assert(t[j].depth > d);
    let head = if is_section_elem(t[j]) {
        seq![j]
    } else {
        Seq::empty()
    };
    assert(sel_scan(t, d, j) == head + sel_scan(t, d, j + 1));
    if j == m {
        assert(sel_scan(t, d, j)[0] == m);
    } else {
        lemma_sel_scan_has(t, d, j + 1, m);
        let tail = sel_scan(t, d, j + 1);
        let i = choose|i: int| 0 <= i < tail.len() && tail[i] == m;
        assert(sel_scan(t, d, j)[head.len() + i] == m);
    }
}

proof fn lemma_first_container_at_least(t: Seq<DomView>, j: int)
    requires
        0 <= j,
    ensures
        first_wanted(t, j, Want::Container) matches Some(c) ==> j <= c < t.len(),
    decreases t.len() - j,
{
    if j < t.len() && !crate::dom::wanted(t[j], Want::Container) {
        lemma_first_container_at_least(t, j + 1);
    }
}

/// What the sectioning reads of section element `j`: its tag and text,
/// whether it is page chrome or holds another section element, the
/// language of a code block, and the anchors of a leaf-text element.
pub open spec fn element_ok(e: PageElement, t: Seq<DomView>, j: int) -> bool {
    let name = t[j].name;
    let in_noise = noise_at(t, j);
    let nested = !in_noise && any_section(t, t[j].depth as int, j + 1);
    let skipped = in_noise || nested;
    let is_heading = name == "h1"@ || name == "h2"@;
    let is_pre = name == "pre"@;
    &&& e.tag@ == name
    &&& e.text@ == elem_text(t, j)
    &&& e.in_noise == in_noise
    &&& e.has_selected_descendant == nested
    &&& e.code_language@ == (if !skipped && is_pre {
        block_language(attr_of(t, j, "class"@), match first_code(t, t[j].depth as int, j + 1) {
            Some(k) => attr_of(t, k, "class"@),
            None => None,
        })
    } else {
        Seq::empty()
    })
    &&& pair_views(e.links@) == (if !skipped && !is_heading && !is_pre {
        href_links(anchor_scan(t, t[j].depth as int, j + 1))
    } else {
        Seq::empty()
    })
}

/// The section elements of a page's container (its first `main`,
/// `article` or `body`), in document order; none without a container.
pub open spec fn selected_elements(t: Seq<DomView>) -> Seq<int> {
    match first_wanted(t, 0, Want::Container) {
        Some(c) => sel_scan(t, t[c].depth as int, c + 1),
        None => Seq::empty(),
    }
}

/// `es` is what the sectioning reads of the page's selected elements.
pub open spec fn elements_ok(es: Seq<PageElement>, t: Seq<DomView>) -> bool {
    let sel = selected_elements(t);
    &&& es.len() == sel.len()
    &&& forall|k: int| 0 <= k < es.len() ==> element_ok(#[trigger] es[k], t, sel[k])
}

/// Law: the words of every text element of a page (a paragraph, list
/// item, table cell or other tag of `sectioned_tags` other than `h1`, `h2`
/// and `pre`) inside its container, outside page chrome and holding no
/// other section element, appear in the content of one of the page's
/// sections, unless the element has no text.
pub proof fn lemma_scraped_text_elements(t: Seq<DomView>, es: Seq<PageElement>, title: Seq<char>, c: int, m: int)
    requires
        elements_ok(es, t),
        first_wanted(t, 0, Want::Container) == Some(c),
        c < m < t.len(),
        forall|q: int| c < q <= m ==> #[trigger] t[q].depth > t[c].depth,
        t[m].kind == DomKind::Element,
        sectioned_tags().contains(t[m].name),
        t[m].name != "h1"@ && t[m].name != "h2"@ && t[m].name != "pre"@,
        !noise_at(t, m),
        !any_section(t, t[m].depth as int, m + 1),
        crate::sections::collapse_ws(elem_text(t, m)).len() > 0,
    ensures
        exists|j: int| 0 <= j < page_sections(title, es).len() && crate::text::contains_spec(
            #[trigger] page_sections(title, es)[j].content,
            crate::sections::collapse_ws(elem_text(t, m)),
        ),
{
    lemma_sectioned_tags(t[m].name);
    lemma_first_container_at_least(t, 0);
    lemma_sel_scan_has(t, t[c].depth as int, c + 1, m);
    let sel = selected_elements(t);
    let k = choose|k: int| 0 <= k < sel.len() && sel[k] == m;
    assert(element_ok(es[k], t, sel[k]));
    assert(es[k].text@ == elem_text(t, m));
    crate::sections::lemma_leaf_text_in_sections(title, es, k);
}

/// What the sectioning reads of section element `j`.
fn page_element_of(t: &Vec<DomNode>, j: usize) -> (e: PageElement)
    requires
        j < t@.len(),
    ensures
        element_ok(e, dom_view(t@), j as int),
{
    let ghost tv = dom_view(t@);
    assert(tv[j as int] == t@[j as int]@);
    let tag = t[j].name.clone();
    let ancestor_names = ancestor_names_of(t, j);
    let in_noise = is_in_noise(tag.as_str(), &ancestor_names);
    let nested = if in_noise {
        false
    } else {
        has_selected_descendant(t, j)
    };
    let skipped = in_noise || nested;
    let is_heading = str_eq(tag.as_str(), "h1") || str_eq(tag.as_str(), "h2");
    let is_pre = str_eq(tag.as_str(), "pre");
    let code_language = if !skipped && is_pre {
        let own_class = attr_value(&t[j], "class");
        let code_class = match first_code_of(t, j) {
            Some(k) => {
                assert(tv[k as int] == t@[k as int]@);
                attr_value(&t[k], "class")
            },
            None => None,
        };
        code_language(&own_class, &code_class)
    } else {
        String::new()
    };
    let links = if !skipped && !is_heading && !is_pre {
        let anchors = anchors_of(t, j);
        element_links(&anchors)
    } else {
        let v: Vec<(String, String)> = Vec::new();
        assert(pair_views(v@) =~= Seq::<(Seq<char>, Seq<char>)>::empty());
        v
    };
    PageElement { tag, text: elem_text_of(t, j), in_noise, has_selected_descendant: nested, code_language, links }
}

/// Parses a page and splits it into sections by heading. The title is the
/// text of the first `title` element, trimmed; the sections come from the
/// section elements (headings, code blocks, leaf text) of the first
/// `main`, `article` or `body` element, as `element_ok` reads them.
pub fn scrape_html(html: &str) -> (r: (String, Vec<WebSection>))
    ensures
        r.0@ == title_of(dom_spec(html@)),
        exists|es: Seq<PageElement>| elements_ok(es, dom_spec(html@)) && section_views(r.1@) == page_sections(r.0@, es),
        crate::sections::sections_shaped(section_views(r.1@), r.0@),
{
    let t = read_dom(html);
    let ghost tv = dom_view(t@);
    let title = match first_wanted_of(&t, Want::Title) {
        Some(i) => {
            let raw = elem_text_of(&t, i);
            trim_str(raw.as_str())
        },
        None => String::new(),
    };
    let mut elements: Vec<PageElement> = Vec::new();
    match first_wanted_of(&t, Want::Container) {
        Some(c) => {
            assert(tv[c as int] == t@[c as int]@);
            let sel = section_elements_of(&t, c);
            let ghost sv = selected_elements(tv);
            let mut k: usize = 0;
            while k < sel.len()
                invariant
                    k <= sel@.len(),
                    tv == dom_view(t@),
                    ints(sel@) == sv,
                    forall|q: int| 0 <= q < sel@.len() ==> #[trigger] sel@[q] < t@.len(),
                    elements@.len() == k,
                    forall|q: int| 0 <= q < k ==> element_ok(#[trigger] elements@[q], tv, sv[q]),
                decreases sel@.len() - k,
            {
                let e = page_element_of(&t, sel[k]);
                elements.push(e);
                k += 1;
            }
        },
        None => {},
    }
    let sections = assemble_sections(title.as_str(), &elements);
    proof {
        crate::sections::lemma_page_sections_shaped(title@, elements@);
    }
    let r = (title, sections);
    assert(elements_ok(elements@, tv));
    r
}

/// A section link's `href` resolved against the page's base URL (kept as it
/// is when it does not resolve).
pub open spec fn based_href(h: Seq<char>, base: UrlParts) -> Seq<char> {
    match normalized_url(h, base) {
        Some(u) => u,
        None => h,
    }
}

pub open spec fn rebase_links(l: Seq<(Seq<char>, Seq<char>)>, base: UrlParts) -> Seq<(Seq<char>, Seq<char>)> {
    Seq::new(l.len(), |i: int| (based_href(l[i].0, base), l[i].1))
}

/// The sections with their links resolved against `base`, when there is one.
pub open spec fn rebase_sections(s: Seq<SectionView>, base: Option<UrlParts>) -> Seq<SectionView> {
    match base {
        Some(b) => Seq::new(s.len(), |i: int| SectionView { links: rebase_links(s[i].links, b), ..s[i] }),
        None => s,
    }
}

fn rebase_section_links(links: &Vec<Link>, base: &WebUrl) -> (r: Vec<Link>)
    ensures
        link_views(r@) == rebase_links(link_views(links@), base@),
{
    let mut out: Vec<Link> = Vec::new();
    let mut i: usize = 0;
    while i < links.len()
        invariant
            i <= links@.len(),
            link_views(out@) == rebase_links(link_views(links@), base@).take(i as int),
        decreases links.len() - i,
    {
        let href = match normalize_url(links[i].href.as_str(), base) {
            Some(u) => u,
            None => links[i].href.clone(),
        };
        let ghost before = link_views(out@);
        out.push(Link { href, anchor_text: links[i].anchor_text.clone() });
        assert(link_views(out@) =~= before.push(rebase_links(link_views(links@), base@)[i as int]));
        assert(rebase_links(link_views(links@), base@).take(i + 1) =~= rebase_links(link_views(links@), base@).take(i as int).push(rebase_links(link_views(links@), base@)[i as int]));
        i += 1;
    }
    assert(rebase_links(link_views(links@), base@).take(links@.len() as int) =~= rebase_links(link_views(links@), base@));
    out
}

/// `scrape_html` with each section link's `href` resolved against the
/// page's URL when one is given (left as it is when it does not resolve).
pub fn scrape_html_with_base(html: &str, base: Option<&WebUrl>) -> (r: (String, Vec<WebSection>))
    ensures
        r.0@ == title_of(dom_spec(html@)),
        exists|es: Seq<PageElement>| elements_ok(es, dom_spec(html@)) && section_views(r.1@) == rebase_sections(page_sections(r.0@, es), match base {
            Some(b) => Some(b@),
            None => None,
        }),
{
    let (title, mut secs) = scrape_html(html);
    let ghost es = choose|es: Seq<PageElement>| elements_ok(es, dom_spec(html@)) && section_views(secs@) == page_sections(title@, es);
    match base {
        Some(b) => {
            let ghost orig = section_views(secs@);
            let mut out: Vec<WebSection> = Vec::new();
            let n = secs.len();
            let mut k: usize = 0;
            while k < n
                invariant
                    k <= n,
                    n == orig.len(),
                    secs@.len() == n - k,
                    forall|q: int| 0 <= q < secs@.len() ==> section_view(#[trigger] secs@[q]) == orig[q + k],
                    section_views(out@) == rebase_sections(orig, Some(b@)).take(k as int),
                decreases n - k,
            {
                let ghost prev = secs@;
                let s = secs.remove(0);
                assert(section_view(prev[0]) == orig[k as int]);
                assert forall|q: int| 0 <= q < secs@.len() implies section_view(#[trigger] secs@[q]) == orig[q + k + 1] by {
                    assert(secs@[q] == prev[q + 1]);
                    assert(section_view(prev[q + 1]) == orig[(q + 1) + k]);
                }
                let links = rebase_section_links(&s.links, b);
                let ghost before = section_views(out@);
                let ns = WebSection { heading_path: s.heading_path, content: s.content, code_blocks: s.code_blocks, links };
                out.push(ns);
                assert(section_views(out@) =~= before.push(section_view(ns)));
                assert(rebase_sections(orig, Some(b@)).take(k + 1) =~= rebase_sections(orig, Some(b@)).take(k as int).push(rebase_sections(orig, Some(b@))[k as int]));
                assert(section_view(ns) == rebase_sections(orig, Some(b@))[k as int]);
                k += 1;
            }
            assert(rebase_sections(orig, Some(b@)).take(n as int) =~= rebase_sections(orig, Some(b@)));
            (title, out)
        },
        None => (title, secs),
    }
}

} // verus!
