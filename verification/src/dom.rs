//! A parsed HTML document as a flat list: every node of the tree the HTML
//! parser builds, in document order, with its depth. The page readers
//! (sections, links, sitemaps, loader text) query this list; parsing is
//! the `scraper` crate's, the queries are verified.
use vstd::prelude::*;
use scraper::Node;
use crate::text::{chars_of, string_of, str_eq, extend_str};
use crate::chunk_types::opt_view;

verus! {

/// The kind of a document node.
#[derive(Debug, Clone, Copy, PartialEq, Eq, Structural)]
pub enum DomKind {
    Element,
    Text,
    Other,
}

/// One node of a parsed document: an element (tag name and attributes), a
/// text node (its text), or another node (the document itself, comments,
/// the doctype); with its depth below the document.
#[derive(Debug, Clone)]
pub struct DomNode {
    pub kind: DomKind,
    pub name: String,
    pub attrs: Vec<(String, String)>,
    pub text: String,
    pub depth: usize,
}

pub struct DomView {
    pub kind: DomKind,
    pub name: Seq<char>,
    pub attrs: Seq<(Seq<char>, Seq<char>)>,
    pub text: Seq<char>,
    pub depth: usize,
}

pub open spec fn attr_views(v: Seq<(String, String)>) -> Seq<(Seq<char>, Seq<char>)> {
    Seq::new(v.len(), |i: int| (v[i].0@, v[i].1@))
}

impl View for DomNode {
    type V = DomView;

    open spec fn view(&self) -> DomView {
        DomView { kind: self.kind, name: self.name@, attrs: attr_views(self.attrs@), text: self.text@, depth: self.depth }
    }
}

pub open spec fn dom_view(v: Seq<DomNode>) -> Seq<DomView> {
    Seq::new(v.len(), |i: int| v[i]@)
}

/// The nodes of the tree the HTML parser builds from a document, in
/// document order.
pub uninterp spec fn dom_spec(html: Seq<char>) -> Seq<DomView>;

/// `Html::parse_document` of scraper, its tree walked in document order
/// (`descendants` of the root); each node's depth is the number of its
/// ancestors. The contract names the result: a function of the text alone.
#[verifier::external_body]
pub fn read_dom(html: &str) -> (r: Vec<DomNode>)
    ensures
        dom_view(r@) == dom_spec(html@),
{
    let doc = scraper::Html::parse_document(html);
    doc.tree.root().descendants().map(|n| {
        let (kind, name, attrs, text) = match n.value() {
            Node::Element(e) => (DomKind::Element, e.name().into(), e.attrs().map(|(k, v)| (k.into(), v.into())).collect(), String::new()),
            Node::Text(x) => (DomKind::Text, String::new(), Vec::new(), x.to_string()),
            _ => (DomKind::Other, String::new(), Vec::new(), String::new()),
        };
        DomNode { kind, name, attrs, text, depth: n.ancestors().count() }
    }).collect()
}

// ---------------------------------------------------------------------------
// Attributes and text
// ---------------------------------------------------------------------------

/// The value of the first attribute named `name`.
pub open spec fn attr_in(a: Seq<(Seq<char>, Seq<char>)>, name: Seq<char>) -> Option<Seq<char>>
    decreases a.len(),
{
    if a.len() == 0 {
        None
    } else if a[0].0 == name {
        Some(a[0].1)
    } else {
        attr_in(a.skip(1), name)
    }
}

pub open spec fn attr_of(t: Seq<DomView>, j: int, name: Seq<char>) -> Option<Seq<char>> {
    attr_in(t[j].attrs, name)
}

pub open spec fn is_elem(t: Seq<DomView>, j: int) -> bool {
    t[j].kind == DomKind::Element
}

/// An element's attribute value.
pub fn attr_value(n: &DomNode, name: &str) -> (r: Option<String>)
    ensures
        opt_view(r) == attr_in(n@.attrs, name@),
{
    let ghost av = attr_views(n.attrs@);
    let mut k: usize = 0;
    assert(av.skip(0) =~= av);
    while k < n.attrs.len()
        invariant
            k <= n.attrs@.len(),
            av == attr_views(n.attrs@),
            attr_in(av.skip(k as int), name@) == attr_in(av, name@),
        decreases n.attrs.len() - k,
    {
        assert(av.skip(k as int)[0] == av[k as int]);
        assert(av.skip(k as int).skip(1) =~= av.skip(k + 1));
        if str_eq(n.attrs[k].0.as_str(), name) {
            return Some(n.attrs[k].1.clone());
        }
        k += 1;
    }
    None
}

/// The text nodes under a node at depth `d`, from node `j` on, joined.
pub open spec fn text_scan(t: Seq<DomView>, d: int, j: int) -> Seq<char>
    decreases t.len() - j,
{
    if j < 0 || j >= t.len() || t[j].depth <= d {
        Seq::empty()
    } else {
        (if t[j].kind == DomKind::Text {
            t[j].text
        } else {
            Seq::empty()
        }) + text_scan(t, d, j + 1)
    }
}

/// An element's text: the text nodes below it, in order (`ElementRef::text`).
pub open spec fn elem_text(t: Seq<DomView>, i: int) -> Seq<char> {
    text_scan(t, t[i].depth as int, i + 1)
}

pub fn elem_text_of(t: &Vec<DomNode>, i: usize) -> (r: String)
    requires
        i < t@.len(),
    ensures
        r@ == elem_text(dom_view(t@), i as int),
{
    let ghost tv = dom_view(t@);
    assert(tv[i as int] == t@[i as int]@);
    let d = t[i].depth;
    let n = t.len();
    let mut acc: Vec<char> = Vec::new();
    let mut j = i + 1;
    while j < t.len() && t[j].depth > d
        invariant
            i < j <= t@.len(),
            tv == dom_view(t@),
            d == tv[i as int].depth,
            acc@ + text_scan(tv, d as int, j as int) == elem_text(tv, i as int),
        decreases t.len() - j,
    {
        assert(tv[j as int] == t@[j as int]@);
        let ghost before = acc@;
        if t[j].kind == DomKind::Text {
            extend_str(&mut acc, t[j].text.as_str());
        }
        assert(before + text_scan(tv, d as int, j as int) == acc@ + text_scan(tv, d as int, j + 1));
        j += 1;
    }
    proof {
        if j < t@.len() {
            assert(tv[j as int] == t@[j as int]@);
        }
        assert(acc@ + Seq::<char>::empty() =~= acc@);
    }
    string_of(&acc)
}

// ---------------------------------------------------------------------------
// Ancestors
// ---------------------------------------------------------------------------

/// The tag names of the element ancestors of a node, nearest first: walking
/// back from node `m`, each node shallower than every node met so far
/// (`cd`) is an ancestor.
pub open spec fn anc_names(t: Seq<DomView>, m: int, cd: int) -> Seq<Seq<char>>
    decreases m,
{
    if m <= 0 || m > t.len() {
        Seq::empty()
    } else if t[m - 1].depth < cd {
        (if t[m - 1].kind == DomKind::Element {
            seq![t[m - 1].name]
        } else {
            Seq::empty()
        }) + anc_names(t, m - 1, t[m - 1].depth as int)
    } else {
        anc_names(t, m - 1, cd)
    }
}

/// The tag names of node `j`'s element ancestors, parent first.
pub open spec fn ancestor_names(t: Seq<DomView>, j: int) -> Seq<Seq<char>> {
    anc_names(t, j, t[j].depth as int)
}

pub fn ancestor_names_of(t: &Vec<DomNode>, j: usize) -> (r: Vec<String>)
    requires
        j < t@.len(),
    ensures
        crate::seqtext::views(r@) == ancestor_names(dom_view(t@), j as int),
{
    let ghost tv = dom_view(t@);
    assert(tv[j as int] == t@[j as int]@);
    let mut out: Vec<String> = Vec::new();
    let mut cd = t[j].depth;
    let mut m = j;
    while m > 0
        invariant
            m <= j < t@.len(),
            tv == dom_view(t@),
            crate::seqtext::views(out@) + anc_names(tv, m as int, cd as int) == ancestor_names(tv, j as int),
        decreases m,
    {
        assert(tv[m - 1] == t@[m - 1]@);
        let ghost before = crate::seqtext::views(out@);
        if t[m - 1].depth < cd {
            if t[m - 1].kind == DomKind::Element {
                crate::seqtext::push_string(&mut out, t[m - 1].name.clone());
                assert(before + anc_names(tv, m as int, cd as int) =~= crate::seqtext::views(out@) + anc_names(tv, m - 1, tv[m - 1].depth as int));
            } else {
                assert(before + anc_names(tv, m as int, cd as int) =~= crate::seqtext::views(out@) + anc_names(tv, m - 1, tv[m - 1].depth as int));
            }
            cd = t[m - 1].depth;
        }
        m -= 1;
    }
    assert(crate::seqtext::views(out@) + Seq::<Seq<char>>::empty() =~= crate::seqtext::views(out@));
    out
}

// ---------------------------------------------------------------------------
// First matches in the document
// ---------------------------------------------------------------------------

/// The elements the readers look up first in a document: the `title`, the
/// content container (`main`, `article` or `body`), and the `base` element
/// with an `href`.
#[derive(Clone, Copy)]
pub enum Want {
    Title,
    Container,
    BaseHref,
}

pub open spec fn wanted(v: DomView, w: Want) -> bool {
    v.kind == DomKind::Element && match w {
        Want::Title => v.name == "title"@,
        Want::Container => v.name == "main"@ || v.name == "article"@ || v.name == "body"@,
        Want::BaseHref => v.name == "base"@ && attr_in(v.attrs, "href"@) is Some,
    }
}

/// Law: a page's container is looked for among `main`, `article` and
/// `body` elements only, a title among `title` elements, and a base URL
/// among `base` elements that carry an `href`.
pub proof fn lemma_wanted_elements(v: DomView)
    ensures
        wanted(v, Want::Container) <==> v.kind == DomKind::Element && seq!["main"@, "article"@, "body"@].contains(v.name),
        wanted(v, Want::Title) <==> v.kind == DomKind::Element && v.name == "title"@,
        wanted(v, Want::BaseHref) <==> v.kind == DomKind::Element && v.name == "base"@ && attr_in(v.attrs, "href"@) is Some,
{
    let t = seq!["main"@, "article"@, "body"@];
    assert(t[0] == "main"@ && t[1] == "article"@ && t[2] == "body"@);
    if t.contains(v.name) {
        let i = choose|i: int| 0 <= i < t.len() && t[i] == v.name;
        assert(0 <= i < 3);
    }
}

/// The first node from `j` on that is the wanted element.
pub open spec fn first_wanted(t: Seq<DomView>, j: int, w: Want) -> Option<int>
    decreases t.len() - j,
{
    if j < 0 || j >= t.len() {
        None
    } else if wanted(t[j], w) {
        Some(j)
    } else {
        first_wanted(t, j + 1, w)
    }
}

fn wanted_exec(n: &DomNode, w: Want) -> (r: bool)
    ensures
        r == wanted(n@, w),
{
    if n.kind != DomKind::Element {
        return false;
    }
    let name = n.name.as_str();
    match w {
        Want::Title => str_eq(name, "title"),
        Want::Container => str_eq(name, "main") || str_eq(name, "article") || str_eq(name, "body"),
        Want::BaseHref => str_eq(name, "base") && attr_value(n, "href").is_some(),
    }
}

/// The first wanted element of the document (see `first_wanted`).
pub fn first_wanted_of(t: &Vec<DomNode>, w: Want) -> (r: Option<usize>)
    ensures
        match r {
            Some(i) => first_wanted(dom_view(t@), 0, w) == Some(i as int) && i < t@.len(),
            None => first_wanted(dom_view(t@), 0, w) is None,
        },
{
    let ghost tv = dom_view(t@);
    let mut j: usize = 0;
    while j < t.len()
        invariant
            j <= t@.len(),
            tv == dom_view(t@),
            first_wanted(tv, j as int, w) == first_wanted(tv, 0, w),
        decreases t.len() - j,
    {
        assert(tv[j as int] == t@[j as int]@);
        if wanted_exec(&t[j], w) {
            return Some(j);
        }
        j += 1;
    }
    None
}

} // verus!
