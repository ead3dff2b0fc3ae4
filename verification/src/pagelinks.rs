//! Links read from a fetched page: the document's `<base href>`, the
//! outgoing links the crawl follows, the navigation links kept with a
//! page's sections, and the sitemaps a page links to. The HTML is queried
//! through its parsed node list (see `dom`); what is read and done with it
//! is verified.
use vstd::prelude::*;
use vstd::string::StringSliceAdditionalSpecFns;
use crate::dom::{DomNode, DomView, DomKind, Want, dom_view, dom_spec, read_dom, attr_in, attr_of, attr_value, elem_text, elem_text_of, first_wanted, first_wanted_of};
use crate::weburl::{
    WebUrl, UrlParts, url_parse_spec, parse_url, normalize_url, normalized_url, same_scope, in_scope,
    url_views,
};
use crate::web::{Link, ignored_host, is_ignored_domain, utf8_len};
use crate::text::{chars_of, string_of, trim_str, trim_spec, str_eq, is_ascii_ws, ascii_lower_seq, ascii_lower_chars};
use crate::seqtext::{views, vviews, push_string};
use crate::chunk_types::opt_view;

verus! {

pub open spec fn opt_views(v: Seq<Option<String>>) -> Seq<Option<Seq<char>>> {
    Seq::new(v.len(), |i: int| opt_view(v[i]))
}

// ---------------------------------------------------------------------------
// The document's base
// ---------------------------------------------------------------------------

/// The URL a page's relative links resolve against: its `<base href>`
/// when that resolves to an HTTP(S) URL, otherwise the document's URL.
pub open spec fn link_base_of(base_attr: Option<Seq<char>>, document_base: UrlParts) -> UrlParts {
    match base_attr {
        Some(h) => match normalized_url(h, document_base) {
            Some(url) => match url_parse_spec(url) {
                Ok(p) => p,
                Err(_) => document_base,
            },
            None => document_base,
        },
        None => document_base,
    }
}

/// The base a page's links resolve against, from its `<base href>` value.
pub fn link_base_from_attr(base_attr: Option<String>, document_base: &WebUrl) -> (r: WebUrl)
    ensures
        r@ == link_base_of(opt_view(base_attr), document_base@),
{
    match base_attr {
        Some(h) => match normalize_url(h.as_str(), document_base) {
            Some(url) => match parse_url(url.as_str()) {
                Ok(p) => p,
                Err(_) => document_base.copied(),
            },
            None => document_base.copied(),
        },
        None => document_base.copied(),
    }
}

/// The value of attribute `attr` on the first wanted element of the
/// document, if there is one and it has the attribute.
fn first_attr(t: &Vec<DomNode>, w: Want, attr: &str) -> (r: Option<String>)
    ensures
        opt_view(r) == match first_wanted(dom_view(t@), 0, w) {
            Some(i) => attr_of(dom_view(t@), i, attr@),
            None => None,
        },
{
    match first_wanted_of(t, w) {
        Some(i) => {
            assert(dom_view(t@)[i as int] == t@[i as int]@);
            attr_value(&t[i], attr)
        },
        None => None,
    }
}

/// The `href` of a document's first `base` element that has one.
pub open spec fn base_attr(t: Seq<DomView>) -> Option<Seq<char>> {
    match first_wanted(t, 0, Want::BaseHref) {
        Some(i) => attr_of(t, i, "href"@),
        None => None,
    }
}

/// A document's effective base URL: its `<base href>` over the response URL.
pub fn base_href(t: &Vec<DomNode>, document_base: &WebUrl) -> (r: WebUrl)
    ensures
        r@ == link_base_of(base_attr(dom_view(t@)), document_base@),
{
    let attr = first_attr(t, Want::BaseHref, "href");
    link_base_from_attr(attr, document_base)
}

// ---------------------------------------------------------------------------
// Outgoing links
// ---------------------------------------------------------------------------

pub open spec fn host_text(h: Option<Seq<char>>) -> Seq<char> {
    match h {
        Some(x) => x,
        None => Seq::empty(),
    }
}

/// The link an element contributes: its link value resolved against the
/// base, when that is an HTTP(S) URL that parses, lies in scope (when the
/// crawl keeps to the start's scope) and is not on an ignored domain.
pub open spec fn page_link(href: Option<Seq<char>>, base: UrlParts, same_domain_only: bool, start: UrlParts) -> Option<Seq<char>> {
    match href {
        Some(h) => match normalized_url(h, base) {
            Some(url) => match url_parse_spec(url) {
                Ok(p) => if (same_domain_only && !in_scope(p, start)) || ignored_host(host_text(p.host)) {
                    None
                } else {
                    Some(url)
                },
                Err(_) => None,
            },
            None => None,
        },
        None => None,
    }
}

/// The links of the elements, in order.
pub open spec fn page_links(hrefs: Seq<Option<Seq<char>>>, base: UrlParts, same_domain_only: bool, start: UrlParts) -> Seq<Seq<char>>
    decreases hrefs.len(),
{
    if hrefs.len() == 0 {
        Seq::empty()
    } else {
        let prev = page_links(hrefs.drop_last(), base, same_domain_only, start);
        match page_link(hrefs.last(), base, same_domain_only, start) {
            Some(u) => prev.push(u),
            None => prev,
        }
    }
}

fn host_or_empty(h: &Option<String>) -> (r: String)
    ensures
        r@ == host_text(opt_view(*h)),
{
    match h {
        Some(x) => x.clone(),
        None => String::new(),
    }
}

/// The page links given by the elements' link values (`href`, else
/// `data-href`, else `data-url`), resolved against the page's base.
pub fn links_from_hrefs(hrefs: &Vec<Option<String>>, link_base: &WebUrl, same_domain_only: bool, scope_start: &WebUrl) -> (r: Vec<String>)
    ensures
        views(r@) == page_links(opt_views(hrefs@), link_base@, same_domain_only, scope_start@),
{
    let ghost hs = opt_views(hrefs@);
    let mut out: Vec<String> = Vec::new();
    let mut i: usize = 0;
    while i < hrefs.len()
        invariant
            i <= hrefs.len(),
            hs == opt_views(hrefs@),
            views(out@) == page_links(hs.take(i as int), link_base@, same_domain_only, scope_start@),
        decreases hrefs.len() - i,
    {
        assert(hs.take(i + 1).drop_last() =~= hs.take(i as int));
        assert(hs.take(i + 1).last() == opt_view(hrefs@[i as int]));
        match &hrefs[i] {
            Some(h) => match normalize_url(h.as_str(), link_base) {
                Some(url) => match parse_url(url.as_str()) {
                    Ok(p) => {
                        let out_of_scope = same_domain_only && !same_scope(&p, scope_start);
                        let host = host_or_empty(&p.host);
                        if !out_of_scope && !is_ignored_domain(host.as_str()) {
                            push_string(&mut out, url);
                        }
                    },
                    Err(_) => {},
                },
                None => {},
            },
            None => {},
        }
        i += 1;
    }
    assert(hs.take(hrefs.len() as int) =~= hs);
    out
}

/// Whether a `rel` value lists `next` (ignoring ASCII case).
pub open spec fn rel_has_next(rel: Seq<char>) -> bool {
    exists|k: int| 0 <= k < ascii_words(rel).len() && ascii_lower_seq(#[trigger] ascii_words(rel)[k]) == "next"@
}

fn rel_names_next(rel: &str) -> (r: bool)
    ensures
        r == rel_has_next(rel@),
{
    let ws = split_ascii_words(&chars_of(rel));
    let ghost wv = vviews(ws@);
    let mut i: usize = 0;
    while i < ws.len()
        invariant
            i <= ws.len(),
            wv == vviews(ws@),
            wv == ascii_words(rel@),
            forall|k: int| 0 <= k < i ==> ascii_lower_seq(#[trigger] wv[k]) != "next"@,
        decreases ws.len() - i,
    {
        let low = string_of(&ascii_lower_chars(&ws[i]));
        assert(wv[i as int] == ws@[i as int]@);
        if str_eq(low.as_str(), "next") {
            return true;
        }
        i += 1;
    }
    false
}

/// An element the crawl takes a link from: `a` or `area` with an `href`,
/// any element with `data-href` or `data-url`, or a `link` with an `href`
/// whose `rel` lists `next`.
pub open spec fn page_link_elem(v: DomView) -> bool {
    &&& v.kind == DomKind::Element
    &&& {
        ||| (v.name == "a"@ || v.name == "area"@) && attr_in(v.attrs, "href"@) is Some
        ||| attr_in(v.attrs, "data-href"@) is Some
        ||| attr_in(v.attrs, "data-url"@) is Some
        ||| v.name == "link"@ && attr_in(v.attrs, "href"@) is Some && match attr_in(v.attrs, "rel"@) {
            Some(r) => rel_has_next(r),
            None => false,
        }
    }
}

/// A link element's value: its `href`, else `data-href`, else `data-url`.
pub open spec fn link_value(v: DomView) -> Option<Seq<char>> {
    match attr_in(v.attrs, "href"@) {
        Some(h) => Some(h),
        None => match attr_in(v.attrs, "data-href"@) {
            Some(h) => Some(h),
            None => attr_in(v.attrs, "data-url"@),
        },
    }
}

/// The values of the link elements from node `j` on, in document order.
pub open spec fn link_values(t: Seq<DomView>, j: int) -> Seq<Option<Seq<char>>>
    decreases t.len() - j,
{
    if j < 0 || j >= t.len() {
        Seq::empty()
    } else {
        (if page_link_elem(t[j]) {
            seq![link_value(t[j])]
        } else {
            Seq::empty()
        }) + link_values(t, j + 1)
    }
}

/// The outgoing page links of an HTML body fetched from `document_base`.
pub open spec fn html_page_links(body: Seq<char>, document_base: UrlParts, same_domain_only: bool, scope_start: UrlParts) -> Seq<Seq<char>> {
    let t = dom_spec(body);
    page_links(link_values(t, 0), link_base_of(base_attr(t), document_base), same_domain_only, scope_start)
}

fn page_link_elem_exec(n: &DomNode) -> (r: bool)
    ensures
        r == page_link_elem(n@),
{
    if n.kind != DomKind::Element {
        return false;
    }
    let name = n.name.as_str();
    let href = attr_value(n, "href").is_some();
    if (str_eq(name, "a") || str_eq(name, "area")) && href {
        return true;
    }
    if attr_value(n, "data-href").is_some() || attr_value(n, "data-url").is_some() {
        return true;
    }
    if str_eq(name, "link") && href {
        match attr_value(n, "rel") {
            Some(r) => rel_names_next(r.as_str()),
            None => false,
        }
    } else {
        false
    }
}

fn link_value_exec(n: &DomNode) -> (r: Option<String>)
    ensures
        opt_view(r) == link_value(n@),
{
    match attr_value(n, "href") {
        Some(h) => Some(h),
        None => match attr_value(n, "data-href") {
            Some(h) => Some(h),
            None => attr_value(n, "data-url"),
        },
    }
}

/// Outgoing page links of an HTML body (`a`, `area`, `data-href`,
/// `data-url` and `rel=next` links), resolved against the page's base and
/// kept to scope and to domains that are not ignored.
pub fn extract_page_links(body: &str, document_base: &WebUrl, same_domain_only: bool, scope_start: &WebUrl) -> (r: Vec<String>)
    ensures
        views(r@) == html_page_links(body@, document_base@, same_domain_only, scope_start@),
{
    let t = read_dom(body);
    let ghost tv = dom_view(t@);
    let link_base = base_href(&t, document_base);
    let mut hrefs: Vec<Option<String>> = Vec::new();
    let mut j: usize = 0;
    while j < t.len()
        invariant
            j <= t@.len(),
            tv == dom_view(t@),
            opt_views(hrefs@) + link_values(tv, j as int) == link_values(tv, 0),
        decreases t.len() - j,
    {
        assert(tv[j as int] == t@[j as int]@);
        let ghost before = opt_views(hrefs@);
        if page_link_elem_exec(&t[j]) {
            hrefs.push(link_value_exec(&t[j]));
            assert(opt_views(hrefs@) =~= before.push(link_value(tv[j as int])));
        }
        assert(before + link_values(tv, j as int) =~= opt_views(hrefs@) + link_values(tv, j + 1));
        j += 1;
    }
    assert(opt_views(hrefs@) + Seq::<Option<Seq<char>>>::empty() =~= opt_views(hrefs@));
    links_from_hrefs(&hrefs, &link_base, same_domain_only, scope_start)
}

// ---------------------------------------------------------------------------
// Navigation links
// ---------------------------------------------------------------------------

/// The navigation links of a page, as (href, anchor text) pairs: anchors
/// trimmed and at least four bytes long, hrefs trimmed and resolved, each
/// pair once.
pub open spec fn nav_links(items: Seq<(Option<Seq<char>>, Seq<char>)>, base: UrlParts) -> Seq<(Seq<char>, Seq<char>)>
    decreases items.len(),
{
    if items.len() == 0 {
        Seq::empty()
    } else {
        let prev = nav_links(items.drop_last(), base);
        let anchor = trim_spec(items.last().1);
        match items.last().0 {
            Some(h) => if utf8_len(anchor) < 4 {
                prev
            } else {
                match normalized_url(trim_spec(h), base) {
                    Some(u) => if prev.contains((u, anchor)) {
                        prev
                    } else {
                        prev.push((u, anchor))
                    },
                    None => prev,
                }
            },
            None => prev,
        }
    }
}

pub open spec fn link_views(v: Seq<Link>) -> Seq<(Seq<char>, Seq<char>)> {
    Seq::new(v.len(), |i: int| (v[i].href@, v[i].anchor_text@))
}

pub open spec fn item_views(v: Seq<(Option<String>, String)>) -> Seq<(Option<Seq<char>>, Seq<char>)> {
    Seq::new(v.len(), |i: int| (opt_view(v[i].0), v[i].1@))
}

fn has_link(links: &Vec<Link>, href: &str, anchor: &str) -> (r: bool)
    ensures
        r == link_views(links@).contains((href@, anchor@)),
{
    let ghost lv = link_views(links@);
    let mut i: usize = 0;
    while i < links.len()
        invariant
            i <= links.len(),
            lv == link_views(links@),
            forall|k: int| 0 <= k < i ==> lv[k] != (href@, anchor@),
        decreases links.len() - i,
    {
        if str_eq(links[i].href.as_str(), href) && str_eq(links[i].anchor_text.as_str(), anchor) {
            assert(lv[i as int] == (href@, anchor@));
            return true;
        }
        i += 1;
    }
    false
}

/// The navigation links given by (href, anchor text) pairs read from a page.
pub fn navigation_links_from(items: &Vec<(Option<String>, String)>, base: &WebUrl) -> (r: Vec<Link>)
    ensures
        link_views(r@) == nav_links(item_views(items@), base@),
{
    let ghost iv = item_views(items@);
    let mut links: Vec<Link> = Vec::new();
    let mut i: usize = 0;
    while i < items.len()
        invariant
            i <= items.len(),
            iv == item_views(items@),
            link_views(links@) == nav_links(iv.take(i as int), base@),
        decreases items.len() - i,
    {
        assert(iv.take(i + 1).drop_last() =~= iv.take(i as int));
        assert(iv.take(i + 1).last() == (opt_view(items@[i as int].0), items@[i as int].1@));
        let anchor = trim_str(items[i].1.as_str());
        let anchor_str = anchor.as_str();
        let long_enough = anchor_str.as_bytes().len() >= 4;
        proof {
            assert(anchor_str.spec_bytes() == vstd::utf8::encode_utf8(anchor@));
        }
        match &items[i].0 {
            Some(h) => {
                if long_enough {
                    let th = trim_str(h.as_str());
                    match normalize_url(th.as_str(), base) {
                        Some(u) => {
                            if !has_link(&links, u.as_str(), anchor.as_str()) {
                                let ghost before = link_views(links@);
                                links.push(Link { href: u, anchor_text: anchor });
                                assert(link_views(links@) =~= before.push((u@, anchor@)));
                            }
                        },
                        None => {},
                    }
                }
            },
            None => {},
        }
        i += 1;
    }
    assert(iv.take(items.len() as int) =~= iv);
    links
}

/// An element that marks navigation: `nav`, `aside`, `role="navigation"`
/// or a `data-nav` attribute.
pub open spec fn nav_like(v: DomView) -> bool {
    v.kind == DomKind::Element && (v.name == "nav"@ || v.name == "aside"@ || attr_in(v.attrs, "role"@) == Some("navigation"@)
        || attr_in(v.attrs, "data-nav"@) is Some)
}

/// Whether an ancestor of a node marks navigation: walking back from node
/// `m`, each node shallower than every node met so far (`cd`) is an
/// ancestor.
pub open spec fn nav_anc(t: Seq<DomView>, m: int, cd: int) -> bool
    decreases m,
{
    if m <= 0 || m > t.len() {
        false
    } else if t[m - 1].depth < cd {
        nav_like(t[m - 1]) || nav_anc(t, m - 1, t[m - 1].depth as int)
    } else {
        nav_anc(t, m - 1, cd)
    }
}

/// A navigation anchor: an `a` with an `href` inside a navigation element.
pub open spec fn nav_anchor(t: Seq<DomView>, j: int) -> bool {
    t[j].kind == DomKind::Element && t[j].name == "a"@ && attr_of(t, j, "href"@) is Some && nav_anc(t, j, t[j].depth as int)
}

/// The (href, text) of the navigation anchors from node `j` on.
pub open spec fn nav_items(t: Seq<DomView>, j: int) -> Seq<(Option<Seq<char>>, Seq<char>)>
    decreases t.len() - j,
{
    if j < 0 || j >= t.len() {
        Seq::empty()
    } else {
        (if nav_anchor(t, j) {
            seq![(attr_of(t, j, "href"@), elem_text(t, j))]
        } else {
            Seq::empty()
        }) + nav_items(t, j + 1)
    }
}

fn nav_like_exec(n: &DomNode) -> (r: bool)
    ensures
        r == nav_like(n@),
{
    if n.kind != DomKind::Element {
        return false;
    }
    let name = n.name.as_str();
    if str_eq(name, "nav") || str_eq(name, "aside") {
        return true;
    }
    let role = match attr_value(n, "role") {
        Some(r) => str_eq(r.as_str(), "navigation"),
        None => false,
    };
    proof {
        reveal_strlit("navigation");
    }
    role || attr_value(n, "data-nav").is_some()
}

fn nav_anchor_exec(t: &Vec<DomNode>, j: usize) -> (r: bool)
    requires
        j < t@.len(),
    ensures
        r == nav_anchor(dom_view(t@), j as int),
{
    let ghost tv = dom_view(t@);
    assert(tv[j as int] == t@[j as int]@);
    if t[j].kind != DomKind::Element || !str_eq(t[j].name.as_str(), "a") || attr_value(&t[j], "href").is_none() {
        return false;
    }
    let mut cd = t[j].depth;
    let mut m = j;
    while m > 0
        invariant
            m <= j < t@.len(),
            tv == dom_view(t@),
            nav_anc(tv, m as int, cd as int) == nav_anc(tv, j as int, tv[j as int].depth as int),
            tv[j as int].kind == DomKind::Element && tv[j as int].name == "a"@ && attr_of(tv, j as int, "href"@) is Some,
        decreases m,
    {
        assert(tv[m - 1] == t@[m - 1]@);
        if t[m - 1].depth < cd {
            if nav_like_exec(&t[m - 1]) {
                assert(nav_anc(tv, m as int, cd as int));
                return true;
            }
            cd = t[m - 1].depth;
        }
        m -= 1;
    }
    false
}

/// The navigation links of a page (`nav`, `aside`, `role=navigation` and
/// `data-nav` anchors), resolved against the page's URL.
pub fn extract_navigation_links(html: &str, base: &WebUrl) -> (r: Vec<Link>)
    ensures
        link_views(r@) == nav_links(nav_items(dom_spec(html@), 0), base@),
{
    let t = read_dom(html);
    let ghost tv = dom_view(t@);
    let mut items: Vec<(Option<String>, String)> = Vec::new();
    let mut j: usize = 0;
    while j < t.len()
        invariant
            j <= t@.len(),
            tv == dom_view(t@),
            item_views(items@) + nav_items(tv, j as int) == nav_items(tv, 0),
        decreases t.len() - j,
    {
        let ghost before = item_views(items@);
        if nav_anchor_exec(&t, j) {
            assert(tv[j as int] == t@[j as int]@);
            let href = attr_value(&t[j], "href");
            let text = elem_text_of(&t, j);
            let ghost item = (opt_view(href), text@);
            items.push((href, text));
            assert(item_views(items@) =~= before.push(item));
        }
        assert(before + nav_items(tv, j as int) =~= item_views(items@) + nav_items(tv, j + 1));
        j += 1;
    }
    assert(item_views(items@) + Seq::<(Option<Seq<char>>, Seq<char>)>::empty() =~= item_views(items@));
    navigation_links_from(&items, base)
}

// ---------------------------------------------------------------------------
// Sitemap links
// ---------------------------------------------------------------------------

/// The words of `s` separated by ASCII whitespace, and whether `s` ends
/// inside a word.
pub open spec fn ascii_words_state(s: Seq<char>) -> (Seq<Seq<char>>, bool)
    decreases s.len(),
{
    if s.len() == 0 {
        (Seq::empty(), false)
    } else {
        let prev = ascii_words_state(s.drop_last());
        let c = s.last();
        if is_ascii_ws(c) {
            (prev.0, false)
        } else if prev.1 && prev.0.len() > 0 {
            (prev.0.update(prev.0.len() - 1, prev.0.last().push(c)), true)
        } else {
            (prev.0.push(seq![c]), true)
        }
    }
}

/// `str::split_ascii_whitespace`.
pub open spec fn ascii_words(s: Seq<char>) -> Seq<Seq<char>> {
    ascii_words_state(s).0
}

fn split_ascii_words(v: &Vec<char>) -> (r: Vec<Vec<char>>)
    ensures
        vviews(r@) == ascii_words(v@),
{
    let mut r: Vec<Vec<char>> = Vec::new();
    let mut in_word = false;
    let mut i: usize = 0;
    while i < v.len()
        invariant
            i <= v.len(),
            (vviews(r@), in_word) == ascii_words_state(v@.take(i as int)),
        decreases v.len() - i,
    {
        let c = v[i];
        let ghost prev = vviews(r@);
        assert(v@.take(i + 1).drop_last() =~= v@.take(i as int));
        if c == ' ' || c == '\t' || c == '\n' || c == '\x0C' || c == '\r' {
            in_word = false;
        } else if in_word && r.len() > 0 {
            let mut w = r.pop().unwrap();
            w.push(c);
            r.push(w);
            assert(vviews(r@) =~= prev.update(prev.len() - 1, prev.last().push(c)));
        } else {
            let mut w: Vec<char> = Vec::new();
            w.push(c);
            r.push(w);
            assert(vviews(r@) =~= prev.push(seq![c]));
            in_word = true;
        }
        i += 1;
    }
    assert(v@.take(v.len() as int) =~= v@);
    r
}

/// Whether a `rel` value lists `sitemap` (ignoring ASCII case).
pub open spec fn rel_has_sitemap(rel: Seq<char>) -> bool {
    exists|k: int| 0 <= k < ascii_words(rel).len() && ascii_lower_seq(#[trigger] ascii_words(rel)[k]) == "sitemap"@
}

fn rel_names_sitemap(rel: &str) -> (r: bool)
    ensures
        r == rel_has_sitemap(rel@),
{
    let ws = split_ascii_words(&chars_of(rel));
    let ghost wv = vviews(ws@);
    proof {
        reveal_strlit("sitemap");
    }
    let mut i: usize = 0;
    while i < ws.len()
        invariant
            i <= ws.len(),
            wv == vviews(ws@),
            wv == ascii_words(rel@),
            forall|k: int| 0 <= k < i ==> ascii_lower_seq(#[trigger] wv[k]) != "sitemap"@,
        decreases ws.len() - i,
    {
        let low = string_of(&ascii_lower_chars(&ws[i]));
        assert(wv[i as int] == ws@[i as int]@);
        if str_eq(low.as_str(), "sitemap") {
            return true;
        }
        i += 1;
    }
    false
}

/// The sitemaps named by `<link rel="sitemap" href=...>` elements, given
/// their (rel, href) attributes: resolved, HTTP(S) and parsed.
pub open spec fn html_sitemaps(items: Seq<(Option<Seq<char>>, Option<Seq<char>>)>, base: UrlParts) -> Seq<UrlParts>
    decreases items.len(),
{
    if items.len() == 0 {
        Seq::empty()
    } else {
        let prev = html_sitemaps(items.drop_last(), base);
        let rel = host_text(items.last().0);
        match items.last().1 {
            Some(h) => if !rel_has_sitemap(rel) {
                prev
            } else {
                match normalized_url(h, base) {
                    Some(url) => match url_parse_spec(url) {
                        Ok(p) => prev.push(p),
                        Err(_) => prev,
                    },
                    None => prev,
                }
            },
            None => prev,
        }
    }
}

pub open spec fn pair_opt_views(v: Seq<(Option<String>, Option<String>)>) -> Seq<(Option<Seq<char>>, Option<Seq<char>>)> {
    Seq::new(v.len(), |i: int| (opt_view(v[i].0), opt_view(v[i].1)))
}

/// The sitemaps named by a page's `link` elements, given their (rel, href)
/// attributes.
pub fn sitemaps_from_link_attrs(items: &Vec<(Option<String>, Option<String>)>, base: &WebUrl) -> (r: Vec<WebUrl>)
    ensures
        url_views(r@) == html_sitemaps(pair_opt_views(items@), base@),
{
    let ghost iv = pair_opt_views(items@);
    let mut out: Vec<WebUrl> = Vec::new();
    let mut i: usize = 0;
    while i < items.len()
        invariant
            i <= items.len(),
            iv == pair_opt_views(items@),
            url_views(out@) == html_sitemaps(iv.take(i as int), base@),
        decreases items.len() - i,
    {
        assert(iv.take(i + 1).drop_last() =~= iv.take(i as int));
        assert(iv.take(i + 1).last() == (opt_view(items@[i as int].0), opt_view(items@[i as int].1)));
        let rel = host_or_empty(&items[i].0);
        match &items[i].1 {
            Some(h) => {
                if rel_names_sitemap(rel.as_str()) {
                    match normalize_url(h.as_str(), base) {
                        Some(url) => match parse_url(url.as_str()) {
                            Ok(p) => {
                                let ghost before = url_views(out@);
                                out.push(p);
                                assert(url_views(out@) =~= before.push(p@));
                            },
                            Err(_) => {},
                        },
                        None => {},
                    }
                }
            },
            None => {},
        }
        i += 1;
    }
    assert(iv.take(items.len() as int) =~= iv);
    out
}

/// The (rel, href) of the `link` elements with an `href`, from node `j` on.
pub open spec fn link_items(t: Seq<DomView>, j: int) -> Seq<(Option<Seq<char>>, Option<Seq<char>>)>
    decreases t.len() - j,
{
    if j < 0 || j >= t.len() {
        Seq::empty()
    } else {
        (if t[j].kind == DomKind::Element && t[j].name == "link"@ && attr_of(t, j, "href"@) is Some {
            seq![(attr_of(t, j, "rel"@), attr_of(t, j, "href"@))]
        } else {
            Seq::empty()
        }) + link_items(t, j + 1)
    }
}

/// The sitemaps an HTML page links to with `<link rel="sitemap">`.
pub fn sitemap_urls_from_html(html: &str, base: &WebUrl) -> (r: Vec<WebUrl>)
    ensures
        url_views(r@) == html_sitemaps(link_items(dom_spec(html@), 0), base@),
{
    let t = read_dom(html);
    let ghost tv = dom_view(t@);
    let mut items: Vec<(Option<String>, Option<String>)> = Vec::new();
    let mut j: usize = 0;
    while j < t.len()
        invariant
            j <= t@.len(),
            tv == dom_view(t@),
            pair_opt_views(items@) + link_items(tv, j as int) == link_items(tv, 0),
        decreases t.len() - j,
    {
        assert(tv[j as int] == t@[j as int]@);
        let ghost before = pair_opt_views(items@);
        if t[j].kind == DomKind::Element && str_eq(t[j].name.as_str(), "link") {
            let href = attr_value(&t[j], "href");
            if href.is_some() {
                let rel = attr_value(&t[j], "rel");
                let ghost item = (opt_view(rel), opt_view(href));
                items.push((rel, href));
                assert(pair_opt_views(items@) =~= before.push(item));
            }
        }
        assert(before + link_items(tv, j as int) =~= pair_opt_views(items@) + link_items(tv, j + 1));
        j += 1;
    }
    assert(pair_opt_views(items@) + Seq::<(Option<Seq<char>>, Option<Seq<char>>)>::empty() =~= pair_opt_views(items@));
    sitemaps_from_link_attrs(&items, base)
}

} // verus!
