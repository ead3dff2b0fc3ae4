//! Sectioning of a scraped page: the selected elements of a page (headings,
//! leaf text, code blocks), read in document order, become sections keyed
//! by their `h1 > h2` heading path, each with its text, code samples and
//! links.
use vstd::prelude::*;
use crate::text::{chars_of, string_of, concat_str, push_char, trim_spec, trim_str, str_eq, is_ws, is_whitespace};
use crate::seqtext::{views, push_string};
use crate::web::{WebSection, CodeBlock, Link, utf8_len};
use vstd::string::StringSliceAdditionalSpecFns;

verus! {

/// What the sectioning reads of one selected element of a page.
#[derive(Debug, Clone)]
pub struct PageElement {
    /// Tag name: `h1`, `h2`, `pre`, or a leaf-text tag.
    pub tag: String,
    /// The element's text, all descendants included.
    pub text: String,
    /// Inside `script`, `style`, `nav`, `footer`, `header` or `aside`.
    pub in_noise: bool,
    /// Holds another selected element (that one carries the text).
    pub has_selected_descendant: bool,
    /// For `pre`: the `language-*` class of the block or its `code` child.
    pub code_language: String,
    /// `(href, anchor text)` of every `a[href]` inside, untrimmed.
    pub links: Vec<(String, String)>,
}

/// A section being filled while the page is walked.
#[derive(Debug, Clone, Default)]
pub struct RawSection {
    pub h1: String,
    pub h2: String,
    pub content: String,
    pub code_blocks: Vec<(String, String)>,
    pub links: Vec<(String, String)>,
}

/// The text of a section being filled.
#[verifier::ext_equal]
pub struct Draft {
    pub h1: Seq<char>,
    pub h2: Seq<char>,
    pub content: Seq<char>,
    pub code_blocks: Seq<(Seq<char>, Seq<char>)>,
    pub links: Seq<(Seq<char>, Seq<char>)>,
}

pub open spec fn pair_views(v: Seq<(String, String)>) -> Seq<(Seq<char>, Seq<char>)> {
    Seq::new(v.len(), |i: int| (v[i].0@, v[i].1@))
}

pub open spec fn draft_of(r: RawSection) -> Draft {
    Draft {
        h1: r.h1@,
        h2: r.h2@,
        content: r.content@,
        code_blocks: pair_views(r.code_blocks@),
        links: pair_views(r.links@),
    }
}

pub open spec fn new_draft(h1: Seq<char>, h2: Seq<char>) -> Draft {
    Draft { h1, h2, content: Seq::empty(), code_blocks: Seq::empty(), links: Seq::empty() }
}

impl RawSection {
    /// An empty section under the given headings.
    pub fn with(h1: &str, h2: &str) -> (r: Self)
        ensures
            draft_of(r) == new_draft(h1@, h2@),
    {
        let r = RawSection {
            h1: h1.to_owned(),
            h2: h2.to_owned(),
            content: String::new(),
            code_blocks: Vec::new(),
            links: Vec::new(),
        };
        assert(pair_views(r.code_blocks@) =~= Seq::empty());
        assert(pair_views(r.links@) =~= Seq::empty());
        r
    }
}

// ---------------------------------------------------------------------------
// Whitespace collapsing and link filtering
// ---------------------------------------------------------------------------

/// The collapsed text so far and whether a space is pending before the
/// next word.
pub open spec fn ws_state(s: Seq<char>) -> (Seq<char>, bool)
    decreases s.len(),
{
    if s.len() == 0 {
        (Seq::empty(), false)
    } else {
        let prev = ws_state(s.drop_last());
        let c = s.last();
        if is_ws(c) {
            (prev.0, prev.0.len() > 0)
        } else if prev.1 {
            (prev.0.push(' ').push(c), false)
        } else {
            (prev.0.push(c), false)
        }
    }
}

/// The words of `s` (runs between whitespace) joined by single spaces.
pub open spec fn collapse_ws(s: Seq<char>) -> Seq<char> {
    ws_state(s).0
}

/// `text.split_whitespace().collect::<Vec<_>>().join(" ")`.
pub fn collapse_whitespace(text: &str) -> (r: String)
    ensures
        r@ == collapse_ws(text@),
{
    let v = chars_of(text);
    let mut out: Vec<char> = Vec::new();
    let mut pending = false;
    let mut i: usize = 0;
    while i < v.len()
        invariant
            i <= v.len(),
            (out@, pending) == ws_state(v@.take(i as int)),
        decreases v.len() - i,
    {
        let c = v[i];
        assert(v@.take(i + 1).drop_last() =~= v@.take(i as int));
        if is_whitespace(c) {
            pending = out.len() > 0;
        } else {
            if pending {
                out.push(' ');
            }
            out.push(c);
            pending = false;
        }
        i += 1;
    }
    assert(v@.take(v.len() as int) =~= v@);
    string_of(&out)
}

/// Links kept in a section: trimmed, with an anchor text of at least four
/// bytes and an href that is neither empty nor `#`.
pub open spec fn kept_links(ls: Seq<(Seq<char>, Seq<char>)>) -> Seq<(Seq<char>, Seq<char>)>
    decreases ls.len(),
{
    if ls.len() == 0 {
        Seq::empty()
    } else {
        let prev = kept_links(ls.drop_last());
        let href = trim_spec(ls.last().0);
        let anchor = trim_spec(ls.last().1);
        if utf8_len(anchor) < 4 || href.len() == 0 || href == "#"@ {
            prev
        } else {
            prev.push((href, anchor))
        }
    }
}

fn push_pair(v: &mut Vec<(String, String)>, a: String, b: String)
    ensures
        pair_views(final(v)@) == pair_views(old(v)@).push((a@, b@)),
{
    let ghost before = pair_views(v@);
    v.push((a, b));
    assert(pair_views(v@) =~= before.push((a@, b@)));
}

/// Appends the links of an element that a section keeps.
fn append_kept_links(dst: &mut Vec<(String, String)>, links: &Vec<(String, String)>)
    ensures
        pair_views(final(dst)@) == pair_views(old(dst)@) + kept_links(pair_views(links@)),
{
    let ghost start = pair_views(dst@);
    let mut i: usize = 0;
    while i < links.len()
        invariant
            i <= links.len(),
            pair_views(dst@) == start + kept_links(pair_views(links@).take(i as int)),
        decreases links.len() - i,
    {
        let ghost cur = pair_views(links@).take(i + 1);
        assert(cur.drop_last() =~= pair_views(links@).take(i as int));
        assert(cur.last() == (links@[i as int].0@, links@[i as int].1@));
        let anchor = trim_str(links[i].1.as_str());
        let href = trim_str(links[i].0.as_str());
        let anchor_str = anchor.as_str();
        let long_enough = anchor_str.as_bytes().len() >= 4;
        proof {
            assert(anchor_str.spec_bytes() == vstd::utf8::encode_utf8(anchor@));
        }
        if long_enough && !href.as_str().is_empty() && !str_eq(href.as_str(), "#") {
            let ghost before = pair_views(dst@);
            push_pair(dst, href, anchor);
            assert(pair_views(dst@) =~= before.push((trim_spec(links@[i as int].0@), trim_spec(links@[i as int].1@))));
        }
        i += 1;
    }
    assert(pair_views(links@).take(links.len() as int) =~= pair_views(links@));
}

// ---------------------------------------------------------------------------
// Walking the page
// ---------------------------------------------------------------------------

/// The headings in force and the sections so far.
#[verifier::ext_equal]
pub struct WalkView {
    pub h1: Seq<char>,
    pub h2: Seq<char>,
    pub drafts: Seq<Draft>,
}

/// The effect of one element: a heading opens a section under the new
/// heading path; a code block or leaf text goes into the last section
/// (opened under the current headings when there is none yet). Elements in
/// page chrome, or holding another selected element, are passed over.
pub open spec fn walk_step(w: WalkView, e: PageElement) -> WalkView {
    if e.in_noise || e.has_selected_descendant {
        w
    } else if e.tag@ == "h1"@ {
        let h = trim_spec(e.text@);
        WalkView { h1: h, h2: Seq::empty(), drafts: w.drafts.push(new_draft(h, Seq::empty())) }
    } else if e.tag@ == "h2"@ {
        let h = trim_spec(e.text@);
        WalkView { h1: w.h1, h2: h, drafts: w.drafts.push(new_draft(w.h1, h)) }
    } else {
        let ds = if w.drafts.len() == 0 {
            seq![new_draft(w.h1, w.h2)]
        } else {
            w.drafts
        };
        let last = ds.last();
        let upd = if e.tag@ == "pre"@ {
            Draft {
                h1: last.h1,
                h2: last.h2,
                content: last.content,
                code_blocks: last.code_blocks.push((e.text@, e.code_language@)),
                links: last.links,
            }
        } else {
            let words = collapse_ws(e.text@);
            Draft {
                h1: last.h1,
                h2: last.h2,
                content: if words.len() > 0 {
                    last.content + words + seq!['\n']
                } else {
                    last.content
                },
                code_blocks: last.code_blocks,
                links: last.links + kept_links(pair_views(e.links@)),
            }
        };
        WalkView { h1: w.h1, h2: w.h2, drafts: ds.update(ds.len() - 1, upd) }
    }
}

/// The walk over a page's selected elements, in document order.
pub open spec fn walk(es: Seq<PageElement>) -> WalkView
    decreases es.len(),
{
    if es.len() == 0 {
        WalkView { h1: Seq::empty(), h2: Seq::empty(), drafts: Seq::empty() }
    } else {
        walk_step(walk(es.drop_last()), es.last())
    }
}

struct SectionWalk {
    h1: String,
    h2: String,
    raws: Vec<RawSection>,
}

spec fn walk_view(w: SectionWalk) -> WalkView {
    WalkView { h1: w.h1@, h2: w.h2@, drafts: Seq::new(w.raws@.len(), |i: int| draft_of(w.raws@[i])) }
}

fn walk_element(w: &mut SectionWalk, e: &PageElement)
    ensures
        walk_view(*final(w)) == walk_step(walk_view(*old(w)), *e),
{
    let ghost wv = walk_view(*w);
    if e.in_noise || e.has_selected_descendant {
        return;
    }
    if str_eq(e.tag.as_str(), "h1") {
        w.h1 = trim_str(e.text.as_str());
        w.h2 = String::new();
        let r = RawSection::with(w.h1.as_str(), w.h2.as_str());
        w.raws.push(r);
        assert(walk_view(*w).drafts =~= wv.drafts.push(new_draft(w.h1@, Seq::empty())));
        assert(walk_view(*w) =~= walk_step(wv, *e));
        return;
    }
    if str_eq(e.tag.as_str(), "h2") {
        w.h2 = trim_str(e.text.as_str());
        let r = RawSection::with(w.h1.as_str(), w.h2.as_str());
        w.raws.push(r);
        assert(walk_view(*w).drafts =~= wv.drafts.push(new_draft(w.h1@, w.h2@)));
        assert(walk_view(*w) =~= walk_step(wv, *e));
        return;
    }
    if w.raws.len() == 0 {
        let r = RawSection::with(w.h1.as_str(), w.h2.as_str());
        w.raws.push(r);
        assert(walk_view(*w).drafts =~= seq![new_draft(wv.h1, wv.h2)]);
    }
    let ghost ds = walk_view(*w).drafts;
    assert(ds =~= if wv.drafts.len() == 0 {
        seq![new_draft(wv.h1, wv.h2)]
    } else {
        wv.drafts
    });
    let mut last = w.raws.pop().unwrap();
    assert(draft_of(last) =~= ds.last());
    if str_eq(e.tag.as_str(), "pre") {
        push_pair(&mut last.code_blocks, e.text.clone(), e.code_language.clone());
        assert(draft_of(last) =~= Draft {
            h1: ds.last().h1,
            h2: ds.last().h2,
            content: ds.last().content,
            code_blocks: ds.last().code_blocks.push((e.text@, e.code_language@)),
            links: ds.last().links,
        });
    } else {
        let words = collapse_whitespace(e.text.as_str());
        if !words.as_str().is_empty() {
            let mut c = concat_str(last.content.as_str(), words.as_str());
            push_char(&mut c, '\n');
            last.content = c;
        }
        append_kept_links(&mut last.links, &e.links);
        assert(draft_of(last) =~= Draft {
            h1: ds.last().h1,
            h2: ds.last().h2,
            content: if collapse_ws(e.text@).len() > 0 {
                ds.last().content + collapse_ws(e.text@) + seq!['\n']
            } else {
                ds.last().content
            },
            code_blocks: ds.last().code_blocks,
            links: ds.last().links + kept_links(pair_views(e.links@)),
        });
    }
    w.raws.push(last);
    assert(walk_view(*w).drafts =~= ds.update(ds.len() - 1, draft_of(last)));
    assert(walk_view(*w) =~= walk_step(wv, *e));
}

// ---------------------------------------------------------------------------
// From drafts to sections
// ---------------------------------------------------------------------------

/// The text of a finished section.
#[verifier::ext_equal]
pub struct SectionView {
    pub heading_path: Seq<Seq<char>>,
    pub content: Seq<char>,
    pub code_blocks: Seq<(Seq<char>, Seq<char>)>,
    pub links: Seq<(Seq<char>, Seq<char>)>,
}

pub open spec fn code_block_views(v: Seq<CodeBlock>) -> Seq<(Seq<char>, Seq<char>)> {
    Seq::new(v.len(), |i: int| (v[i].raw@, v[i].language@))
}

pub open spec fn link_views(v: Seq<Link>) -> Seq<(Seq<char>, Seq<char>)> {
    Seq::new(v.len(), |i: int| (v[i].href@, v[i].anchor_text@))
}

pub open spec fn section_view(s: WebSection) -> SectionView {
    SectionView {
        heading_path: views(s.heading_path@),
        content: s.content@,
        code_blocks: code_block_views(s.code_blocks@),
        links: link_views(s.links@),
    }
}

pub open spec fn section_views(v: Seq<WebSection>) -> Seq<SectionView> {
    Seq::new(v.len(), |i: int| section_view(v[i]))
}

/// `h1` and `h2` when present; the page title when neither is.
pub open spec fn heading_path_of(d: Draft, title: Seq<char>) -> Seq<Seq<char>> {
    let hp = (if d.h1.len() > 0 {
        seq![d.h1]
    } else {
        Seq::empty()
    }) + (if d.h2.len() > 0 {
        seq![d.h2]
    } else {
        Seq::empty()
    });
    if hp.len() == 0 && title.len() > 0 {
        seq![title]
    } else {
        hp
    }
}

/// The sections with text or code, in order, their text trimmed.
pub open spec fn sections_of(drafts: Seq<Draft>, title: Seq<char>) -> Seq<SectionView>
    decreases drafts.len(),
{
    if drafts.len() == 0 {
        Seq::empty()
    } else {
        let prev = sections_of(drafts.drop_last(), title);
        let d = drafts.last();
        let content = trim_spec(d.content);
        if content.len() == 0 && d.code_blocks.len() == 0 {
            prev
        } else {
            prev.push(
                SectionView {
                    heading_path: heading_path_of(d, title),
                    content,
                    code_blocks: d.code_blocks,
                    links: d.links,
                },
            )
        }
    }
}

/// The sections of a page with the given title and selected elements.
pub open spec fn page_sections(title: Seq<char>, es: Seq<PageElement>) -> Seq<SectionView> {
    sections_of(walk(es).drafts, title)
}

fn finish_section(r: &RawSection, title: &str) -> (s: Option<WebSection>)
    ensures
        match s {
            Some(s) => trim_spec(r.content@).len() > 0 || r.code_blocks@.len() > 0,
            None => trim_spec(r.content@).len() == 0 && r.code_blocks@.len() == 0,
        },
        s matches Some(s) ==> section_view(s) == (SectionView {
            heading_path: heading_path_of(draft_of(*r), title@),
            content: trim_spec(r.content@),
            code_blocks: pair_views(r.code_blocks@),
            links: pair_views(r.links@),
        }),
{
    let content = trim_str(r.content.as_str());
    if content.as_str().is_empty() && r.code_blocks.len() == 0 {
        return None;
    }
    let mut heading_path: Vec<String> = Vec::new();
    if !r.h1.as_str().is_empty() {
        push_string(&mut heading_path, r.h1.clone());
    }
    if !r.h2.as_str().is_empty() {
        push_string(&mut heading_path, r.h2.clone());
    }
    if heading_path.len() == 0 && !title.is_empty() {
        push_string(&mut heading_path, title.to_owned());
    }
    proof {
        assert(views(heading_path@) =~= heading_path_of(draft_of(*r), title@));
    }
    let mut code_blocks: Vec<CodeBlock> = Vec::new();
    let mut i: usize = 0;
    while i < r.code_blocks.len()
        invariant
            i <= r.code_blocks.len(),
            code_block_views(code_blocks@) == pair_views(r.code_blocks@).take(i as int),
        decreases r.code_blocks.len() - i,
    {
        let ghost before = code_block_views(code_blocks@);
        let b = CodeBlock { raw: r.code_blocks[i].0.clone(), language: r.code_blocks[i].1.clone() };
        code_blocks.push(b);
        assert(code_block_views(code_blocks@) =~= before.push((b.raw@, b.language@)));
        i += 1;
        assert(pair_views(r.code_blocks@).take(i as int) =~= pair_views(r.code_blocks@).take(i - 1).push(
            (r.code_blocks@[i - 1].0@, r.code_blocks@[i - 1].1@),
        ));
    }
    let mut links: Vec<Link> = Vec::new();
    let mut j: usize = 0;
    while j < r.links.len()
        invariant
            j <= r.links.len(),
            link_views(links@) == pair_views(r.links@).take(j as int),
        decreases r.links.len() - j,
    {
        let ghost before = link_views(links@);
        let l = Link { href: r.links[j].0.clone(), anchor_text: r.links[j].1.clone() };
        links.push(l);
        assert(link_views(links@) =~= before.push((l.href@, l.anchor_text@)));
        j += 1;
        assert(pair_views(r.links@).take(j as int) =~= pair_views(r.links@).take(j - 1).push(
            (r.links@[j - 1].0@, r.links@[j - 1].1@),
        ));
    }
    assert(pair_views(r.code_blocks@).take(r.code_blocks@.len() as int) =~= pair_views(r.code_blocks@));
    assert(pair_views(r.links@).take(r.links@.len() as int) =~= pair_views(r.links@));
    Some(WebSection { heading_path, content, code_blocks, links })
}

/// Sections of a page from its title and its selected elements in document
/// order.
pub fn assemble_sections(title: &str, elements: &Vec<PageElement>) -> (r: Vec<WebSection>)
    ensures
        section_views(r@) == page_sections(title@, elements@),
{
    let mut w = SectionWalk { h1: String::new(), h2: String::new(), raws: Vec::new() };
    let mut i: usize = 0;
    assert(elements@.take(0) =~= Seq::<PageElement>::empty());
    assert(walk_view(w) =~= walk(elements@.take(0)));
    while i < elements.len()
        invariant
            i <= elements.len(),
            walk_view(w) == walk(elements@.take(i as int)),
        decreases elements.len() - i,
    {
        walk_element(&mut w, &elements[i]);
        i += 1;
        assert(elements@.take(i as int).drop_last() =~= elements@.take(i - 1));
    }
    assert(elements@.take(elements.len() as int) =~= elements@);
    let ghost drafts = walk_view(w).drafts;
    let mut out: Vec<WebSection> = Vec::new();
    let mut k: usize = 0;
    while k < w.raws.len()
        invariant
            k <= w.raws.len(),
            drafts == walk_view(w).drafts,
            section_views(out@) == sections_of(drafts.take(k as int), title@),
        decreases w.raws.len() - k,
    {
        let ghost before = section_views(out@);
        assert(drafts.take(k + 1).drop_last() =~= drafts.take(k as int));
        assert(drafts.take(k + 1).last() == draft_of(w.raws@[k as int]));
        match finish_section(&w.raws[k], title) {
            Some(s) => {
                out.push(s);
                assert(section_views(out@) =~= before.push(section_view(s)));
            },
            None => {},
        }
        k += 1;
    }
    assert(drafts.take(w.raws.len() as int) =~= drafts);
    out
}

// ---------------------------------------------------------------------------
// Laws of the sectioning
// ---------------------------------------------------------------------------

/// Every link kept: an anchor text of at least four bytes and an href that
/// is neither empty nor `#`.
pub open spec fn links_kept(ls: Seq<(Seq<char>, Seq<char>)>) -> bool {
    forall|i: int|
        0 <= i < ls.len() ==> utf8_len((#[trigger] ls[i]).1) >= 4 && ls[i].0.len() > 0 && ls[i].0
            != "#"@
}

/// The shape of a page's sections: each has text or code, its text is
/// trimmed, its heading path holds at most two headings (at least one when
/// the page has a title), and it keeps only links with an anchor of at
/// least four bytes and an href other than empty or `#`.
pub open spec fn sections_shaped(secs: Seq<SectionView>, title: Seq<char>) -> bool {
    forall|k: int|
        0 <= k < secs.len() ==> {
            let s = #[trigger] secs[k];
            &&& s.content.len() > 0 || s.code_blocks.len() > 0
            &&& trim_spec(s.content) == s.content
            &&& s.heading_path.len() <= 2
            &&& title.len() > 0 ==> s.heading_path.len() > 0
            &&& links_kept(s.links)
        }
}

proof fn lemma_kept_links_kept(ls: Seq<(Seq<char>, Seq<char>)>)
    ensures
        links_kept(kept_links(ls)),
    decreases ls.len(),
{
    if ls.len() > 0 {
        lemma_kept_links_kept(ls.drop_last());
        let prev = kept_links(ls.drop_last());
        let r = kept_links(ls);
        assert forall|i: int| 0 <= i < r.len() implies utf8_len((#[trigger] r[i]).1) >= 4
            && r[i].0.len() > 0 && r[i].0 != "#"@ by {
            if i < prev.len() {
                assert(r[i] == prev[i]);
            }
        }
    }
}

/// Every section being filled keeps only links that pass.
proof fn lemma_walk_links_kept(es: Seq<PageElement>)
    ensures
        forall|j: int| 0 <= j < walk(es).drafts.len() ==> links_kept((#[trigger] walk(es).drafts[j]).links),
    decreases es.len(),
{
    if es.len() > 0 {
        lemma_walk_links_kept(es.drop_last());
        let w = walk(es.drop_last());
        let e = es.last();
        let w2 = walk(es);
        assert(w2 == walk_step(w, e));
        if !(e.in_noise || e.has_selected_descendant) && e.tag@ != "h1"@ && e.tag@ != "h2"@ {
            let ds = if w.drafts.len() == 0 {
                seq![new_draft(w.h1, w.h2)]
            } else {
                w.drafts
            };
            assert(links_kept(new_draft(w.h1, w.h2).links));
            assert forall|j: int| 0 <= j < ds.len() implies links_kept((#[trigger] ds[j]).links) by {
                if w.drafts.len() > 0 {
                    assert(ds[j] == w.drafts[j]);
                }
            }
            lemma_kept_links_kept(pair_views(e.links@));
            let last = ds.last();
            let extra = kept_links(pair_views(e.links@));
            assert(links_kept(last.links));
            assert(links_kept(last.links + extra)) by {
                let c = last.links + extra;
                assert forall|i: int| 0 <= i < c.len() implies utf8_len((#[trigger] c[i]).1) >= 4
                    && c[i].0.len() > 0 && c[i].0 != "#"@ by {
                    if i < last.links.len() {
                        assert(c[i] == last.links[i]);
                    } else {
                        assert(c[i] == extra[i - last.links.len()]);
                    }
                }
            }
        } else if !(e.in_noise || e.has_selected_descendant) {
            let h = trim_spec(e.text@);
            assert(links_kept(new_draft(h, Seq::empty()).links));
            assert(links_kept(new_draft(w.h1, h).links));
            assert forall|j: int| 0 <= j < w2.drafts.len() implies links_kept(
                (#[trigger] w2.drafts[j]).links,
            ) by {
                if j < w.drafts.len() {
                    assert(w2.drafts[j] == w.drafts[j]);
                }
            }
        }
    }
}

proof fn lemma_sections_of_shaped(drafts: Seq<Draft>, title: Seq<char>)
    requires
        forall|j: int| 0 <= j < drafts.len() ==> links_kept((#[trigger] drafts[j]).links),
    ensures
        sections_shaped(sections_of(drafts, title), title),
    decreases drafts.len(),
{
    if drafts.len() > 0 {
        let d = drafts.last();
        let dd = drafts.drop_last();
        assert forall|j: int| 0 <= j < dd.len() implies links_kept((#[trigger] dd[j]).links) by {
            assert(dd[j] == drafts[j]);
        }
        lemma_sections_of_shaped(dd, title);
        let prev = sections_of(dd, title);
        let r = sections_of(drafts, title);
        crate::text::lemma_trim_idempotent(d.content);
        assert(links_kept(drafts[drafts.len() - 1].links));
        assert forall|k: int| 0 <= k < r.len() implies {
            let s = #[trigger] r[k];
            &&& s.content.len() > 0 || s.code_blocks.len() > 0
            &&& trim_spec(s.content) == s.content
            &&& s.heading_path.len() <= 2
            &&& title.len() > 0 ==> s.heading_path.len() > 0
            &&& links_kept(s.links)
        } by {
            if k < prev.len() {
                assert(r[k] == prev[k]);
            }
        }
    }
}

/// Law: the sections of any page have the shape `sections_shaped` states.
pub proof fn lemma_page_sections_shaped(title: Seq<char>, es: Seq<PageElement>)
    ensures
        sections_shaped(page_sections(title, es), title),
{
    lemma_walk_links_kept(es);
    lemma_sections_of_shaped(walk(es).drafts, title);
}

/// The elements of `es` outside page chrome, in order.
pub open spec fn outside_noise(es: Seq<PageElement>) -> Seq<PageElement>
    decreases es.len(),
{
    if es.len() == 0 {
        Seq::empty()
    } else if es.last().in_noise {
        outside_noise(es.drop_last())
    } else {
        outside_noise(es.drop_last()).push(es.last())
    }
}

proof fn lemma_walk_outside_noise(es: Seq<PageElement>)
    ensures
        walk(outside_noise(es)) == walk(es),
    decreases es.len(),
{
    if es.len() > 0 {
        lemma_walk_outside_noise(es.drop_last());
        let o = outside_noise(es);
        if !es.last().in_noise {
            assert(o.drop_last() =~= outside_noise(es.drop_last()));
            assert(o.last() == es.last());
        }
    }
}

/// Law: elements inside page chrome (`script`, `style`, `nav`, `footer`,
/// `header`, `aside`) contribute nothing: the sections are those of the
/// other elements alone.
pub proof fn lemma_page_sections_ignore_noise(title: Seq<char>, es: Seq<PageElement>)
    ensures
        page_sections(title, es) == page_sections(title, outside_noise(es)),
{
    lemma_walk_outside_noise(es);
}

// ---------------------------------------------------------------------------
// Law: leaf text reaches the sections
// ---------------------------------------------------------------------------

/// A text element the sections take their text from: not a heading
/// (`h1`, `h2`) or code block (`pre`), outside page chrome, and holding no
/// other selected element.
pub open spec fn is_text_leaf(e: PageElement) -> bool {
    &&& !e.in_noise
    &&& !e.has_selected_descendant
    &&& e.tag@ != "h1"@
    &&& e.tag@ != "h2"@
    &&& e.tag@ != "pre"@
}

proof fn lemma_collapse_ends(s: Seq<char>)
    ensures
        ws_state(s).1 ==> ws_state(s).0.len() > 0,
        ws_state(s).0.len() > 0 ==> !is_ws(ws_state(s).0[0]) && !is_ws(ws_state(s).0.last()),
    decreases s.len(),
{
    if s.len() > 0 {
        lemma_collapse_ends(s.drop_last());
        let prev = ws_state(s.drop_last());
        let c = s.last();
        if !is_ws(c) {
            if prev.1 {
                assert(prev.0.push(' ').push(c)[0] == prev.0[0]);
            } else if prev.0.len() > 0 {
                assert(prev.0.push(c)[0] == prev.0[0]);
            }
        }
    }
}

proof fn lemma_occurs_in_longer(a: Seq<char>, b: Seq<char>, x: Seq<char>, i: int)
    requires
        crate::text::occurs_at(a, x, i),
    ensures
        crate::text::occurs_at(a + b, x, i),
{
    assert((a + b).subrange(i, i + x.len()) =~= a.subrange(i, i + x.len()));
}

/// Trimming keeps any part that starts and ends with a character other than
/// whitespace.
proof fn lemma_trim_keeps(c: Seq<char>, x: Seq<char>, i: int)
    requires
        crate::text::occurs_at(c, x, i),
        x.len() > 0,
        !is_ws(x[0]),
        !is_ws(x.last()),
    ensures
        crate::text::contains_spec(trim_spec(c), x),
{
    crate::text::lemma_trim_start_index_bounds(c);
    let i0 = crate::text::trim_start_index(c);
    assert(c[i] == x[0]);
    assert(i0 <= i);
    let u = crate::text::trim_start_spec(c);
    assert(u =~= c.skip(i0));
    let p = i - i0;
    assert(u.subrange(p, p + x.len()) =~= c.subrange(i, i + x.len()));
    crate::text::lemma_trim_end_index_bounds(u);
    let e0 = crate::text::trim_end_index(u);
    assert(u[p + x.len() - 1] == x.last());
    assert(e0 >= p + x.len());
    let v = trim_spec(c);
    assert(v =~= u.take(e0));
    assert(v.subrange(p, p + x.len()) =~= u.subrange(p, p + x.len()));
    assert(crate::text::occurs_at(v, x, p));
}

/// One element never removes text already in a section.
proof fn lemma_step_keeps(w: WalkView, e: PageElement, m: int, x: Seq<char>)
    requires
        0 <= m < w.drafts.len(),
        crate::text::contains_spec(w.drafts[m].content, x),
    ensures
        m < walk_step(w, e).drafts.len(),
        crate::text::contains_spec(walk_step(w, e).drafts[m].content, x),
{
    let w2 = walk_step(w, e);
    let i = choose|i: int| crate::text::occurs_at(w.drafts[m].content, x, i);
    if !(e.in_noise || e.has_selected_descendant) && e.tag@ != "h1"@ && e.tag@ != "h2"@ {
        let last = w.drafts.last();
        if m == w.drafts.len() - 1 && e.tag@ != "pre"@ {
            let words = collapse_ws(e.text@);
            if words.len() > 0 {
                lemma_occurs_in_longer(last.content, words + seq!['\n'], x, i);
                assert(last.content + words + seq!['\n'] =~= last.content + (words + seq!['\n']));
                assert(crate::text::occurs_at(w2.drafts[m].content, x, i));
            }
        }
    }
}

/// The text of a text element ends up in the section being filled.
proof fn lemma_step_adds(w: WalkView, e: PageElement)
    requires
        is_text_leaf(e),
        collapse_ws(e.text@).len() > 0,
    ensures
        walk_step(w, e).drafts.len() > 0,
        crate::text::contains_spec(walk_step(w, e).drafts.last().content, collapse_ws(e.text@)),
{
    let w2 = walk_step(w, e);
    let ds = if w.drafts.len() == 0 {
        seq![new_draft(w.h1, w.h2)]
    } else {
        w.drafts
    };
    let c = ds.last().content;
    let words = collapse_ws(e.text@);
    assert(w2.drafts.last().content == c + words + seq!['\n']);
    assert((c + words + seq!['\n']).subrange(c.len() as int, c.len() + words.len() as int) =~= words);
    assert(crate::text::occurs_at(w2.drafts.last().content, words, c.len() as int));
}

proof fn lemma_walk_keeps_leaf(es: Seq<PageElement>, k: int)
    requires
        0 <= k < es.len(),
        is_text_leaf(es[k]),
        collapse_ws(es[k].text@).len() > 0,
    ensures
        exists|m: int| 0 <= m < walk(es).drafts.len() && crate::text::contains_spec(
            #[trigger] walk(es).drafts[m].content,
            collapse_ws(es[k].text@),
        ),
    decreases es.len(),
{
    let d = es.drop_last();
    let x = collapse_ws(es[k].text@);
    if k == es.len() - 1 {
        lemma_step_adds(walk(d), es.last());
        let m = walk(es).drafts.len() - 1;
        assert(crate::text::contains_spec(walk(es).drafts[m].content, x));
    } else {
        assert(d[k] == es[k]);
        lemma_walk_keeps_leaf(d, k);
        let m = choose|m: int| 0 <= m < walk(d).drafts.len() && crate::text::contains_spec(
            #[trigger] walk(d).drafts[m].content,
            x,
        );
        lemma_step_keeps(walk(d), es.last(), m, x);
        assert(crate::text::contains_spec(walk(es).drafts[m].content, x));
    }
}

proof fn lemma_sections_keep(drafts: Seq<Draft>, title: Seq<char>, m: int, x: Seq<char>)
    requires
        0 <= m < drafts.len(),
        crate::text::contains_spec(drafts[m].content, x),
        x.len() > 0,
        !is_ws(x[0]),
        !is_ws(x.last()),
    ensures
        exists|j: int| 0 <= j < sections_of(drafts, title).len() && crate::text::contains_spec(
            #[trigger] sections_of(drafts, title)[j].content,
            x,
        ),
    decreases drafts.len(),
{
    let prev = sections_of(drafts.drop_last(), title);
    if m == drafts.len() - 1 {
        let i = choose|i: int| crate::text::occurs_at(drafts[m].content, x, i);
        lemma_trim_keeps(drafts[m].content, x, i);
        let t = trim_spec(drafts.last().content);
        assert(t.len() > 0);
        let r = sections_of(drafts, title);
        assert(r[prev.len() as int].content == t);
    } else {
        assert(drafts.drop_last()[m] == drafts[m]);
        lemma_sections_keep(drafts.drop_last(), title, m, x);
        let j = choose|j: int| 0 <= j < prev.len() && crate::text::contains_spec(#[trigger] prev[j].content, x);
        let r = sections_of(drafts, title);
        assert(r[j] == prev[j]);
    }
}

/// Law: the words of every text element (a paragraph, list item, table
/// cell or other text tag) outside page chrome and holding no other
/// selected element appear in the content of a section, unless the element
/// has no text.
pub proof fn lemma_leaf_text_in_sections(title: Seq<char>, es: Seq<PageElement>, k: int)
    requires
        0 <= k < es.len(),
        is_text_leaf(es[k]),
        collapse_ws(es[k].text@).len() > 0,
    ensures
        exists|j: int| 0 <= j < page_sections(title, es).len() && crate::text::contains_spec(
            #[trigger] page_sections(title, es)[j].content,
            collapse_ws(es[k].text@),
        ),
{
    let x = collapse_ws(es[k].text@);
    lemma_walk_keeps_leaf(es, k);
    lemma_collapse_ends(es[k].text@);
    let m = choose|m: int| 0 <= m < walk(es).drafts.len() && crate::text::contains_spec(
        #[trigger] walk(es).drafts[m].content,
        x,
    );
    assert(x == ws_state(es[k].text@).0);
    lemma_sections_keep(walk(es).drafts, title, m, x);
    let secs = sections_of(walk(es).drafts, title);
    assert(secs == page_sections(title, es));
    let j = choose|j: int| 0 <= j < secs.len() && crate::text::contains_spec(#[trigger] secs[j].content, x);
    assert(crate::text::contains_spec(page_sections(title, es)[j].content, x));
}


} // verus!
