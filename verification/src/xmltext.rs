//! XML read as a stream of events (quick-xml does the reading): the text of
//! an XML document, and the locations a sitemap or feed lists.
use vstd::prelude::*;
use quick_xml::events::Event;
use quick_xml::Reader;
use crate::text::{trim_str, trim_spec, str_eq, concat_str};
use crate::seqtext::{views, push_string};

verus! {

/// An XML event as the contracts see it.
pub enum XmlEv {
    Start(Seq<char>),
    End(Seq<char>),
    Text(Option<Seq<char>>),
    Other,
    Error,
}

/// An event read from an XML document: a start or end tag (its local
/// name), text (decoded; `None` when it does not decode), any other event,
/// or a read error, which ends the stream.
#[derive(Debug, Clone, PartialEq)]
pub enum XmlEvent {
    Start(String),
    End(String),
    Text(Option<String>),
    Other,
    Error,
}

impl View for XmlEvent {
    type V = XmlEv;

    open spec fn view(&self) -> XmlEv {
        match self {
            XmlEvent::Start(n) => XmlEv::Start(n@),
            XmlEvent::End(n) => XmlEv::End(n@),
            XmlEvent::Text(t) => XmlEv::Text(crate::chunk_types::opt_view(*t)),
            XmlEvent::Other => XmlEv::Other,
            XmlEvent::Error => XmlEv::Error,
        }
    }
}

pub open spec fn events_view(v: Seq<XmlEvent>) -> Seq<XmlEv> {
    Seq::new(v.len(), |i: int| v[i]@)
}

/// The events quick-xml reads from a document, with text trimming on, up
/// to the end of the document; each error it reports is one `Error` event.
pub uninterp spec fn xml_events_spec(bytes: Seq<u8>) -> Seq<XmlEv>;

/// `Reader::read_event_into` over the whole document (`Reader::from_reader`
/// with `trim_text(true)`), each event read into an `XmlEvent`: tag names
/// by `local_name` (read as text), text by `BytesText::decode`, each error
/// as an `Error` event. Reading ends at the end of the document: after an
/// error other than ill-formed markup quick-xml's next event is the end;
/// after ill-formed markup it has consumed the bad input and reads on. The
/// readers built on these events stop at the first `Error`. The contract
/// names the result: a function of the bytes alone.
#[verifier::external_body]
fn read_xml_events(bytes: &[u8]) -> (r: Vec<XmlEvent>)
    ensures
        events_view(r@) == xml_events_spec(bytes@),
{
    let mut reader = Reader::from_reader(bytes);
    reader.config_mut().trim_text(true);
    let (mut buf, mut out) = (Vec::new(), Vec::new());
    loop {
        out.push(match reader.read_event_into(&mut buf) {
            Ok(Event::Start(e)) => XmlEvent::Start(String::from_utf8_lossy(e.local_name().into_inner()).into()),
            Ok(Event::End(e)) => XmlEvent::End(String::from_utf8_lossy(e.local_name().into_inner()).into()),
            Ok(Event::Text(e)) => XmlEvent::Text(e.decode().ok().map(Into::into)),
            Ok(Event::Eof) => return out,
            Ok(_) => XmlEvent::Other,
            Err(_) => XmlEvent::Error,
        });
        buf.clear();
    }
}

/// What `quick_xml::escape::unescape` gives for a text: the text with its
/// XML escapes replaced, or `None` when an escape is malformed.
pub uninterp spec fn xml_unescape_spec(s: Seq<char>) -> Option<Seq<char>>;

/// `quick_xml::escape::unescape`, with the error dropped. The contract
/// names the result: a function of the text alone.
#[verifier::external_body]
fn xml_unescape(s: &str) -> (r: Option<String>)
    ensures
        crate::chunk_types::opt_view(r) == xml_unescape_spec(s@),
{
    match quick_xml::escape::unescape(s) {
        Ok(c) => Some(c.into_owned()),
        Err(_) => None,
    }
}

// ---------------------------------------------------------------------------
// Document text
// ---------------------------------------------------------------------------

/// The text gathered from the events: each decoded, non-blank text trimmed
/// and joined to the rest by one space; reading stops at an error.
pub open spec fn text_state(evs: Seq<XmlEv>) -> (Seq<char>, bool)
    decreases evs.len(),
{
    if evs.len() == 0 {
        (Seq::empty(), false)
    } else {
        let (text, stopped) = text_state(evs.drop_last());
        if stopped {
            (text, true)
        } else {
            match evs.last() {
                XmlEv::Text(Some(s)) => if trim_spec(s).len() == 0 {
                    (text, false)
                } else if text.len() == 0 {
                    (trim_spec(s), false)
                } else {
                    (text + seq![' '] + trim_spec(s), false)
                },
                XmlEv::Error => (text, true),
                _ => (text, false),
            }
        }
    }
}

/// The text of an XML document: its non-blank text nodes, trimmed and
/// joined by single spaces, up to the first read error.
pub fn extract_xml_text(bytes: &[u8]) -> (r: String)
    ensures
        r@ == text_state(xml_events_spec(bytes@)).0,
{
    let evs = read_xml_events(bytes);
    let ghost ev = events_view(evs@);
    let mut text = String::new();
    let mut stopped = false;
    let mut i: usize = 0;
    while i < evs.len()
        invariant
            i <= evs.len(),
            ev == events_view(evs@),
            ev == xml_events_spec(bytes@),
            (text@, stopped) == text_state(ev.take(i as int)),
        decreases evs.len() - i,
    {
        assert(ev.take(i + 1).drop_last() =~= ev.take(i as int));
        assert(ev.take(i + 1).last() == evs@[i as int]@);
        if !stopped {
            match &evs[i] {
                XmlEvent::Text(Some(s)) => {
                    let t = trim_str(s.as_str());
                    if !t.as_str().is_empty() {
                        if text.as_str().is_empty() {
                            text = t;
                        } else {
                            let spaced = concat_str(text.as_str(), " ");
                            proof {
                                reveal_strlit(" ");
                            }
                            text = concat_str(spaced.as_str(), t.as_str());
                        }
                    }
                },
                XmlEvent::Error => {
                    stopped = true;
                },
                _ => {},
            }
        }
        i += 1;
    }
    assert(ev.take(evs.len() as int) =~= ev);
    text
}

// ---------------------------------------------------------------------------
// Sitemaps
// ---------------------------------------------------------------------------

/// Where a sitemap scan stands: whether the root is a sitemap index, the
/// root's name, the open tags, whether a location is being read, the
/// locations so far, and whether reading failed.
#[verifier::ext_equal]
pub struct SitemapScan {
    pub is_index: bool,
    pub root: Option<Seq<char>>,
    pub stack: Seq<Seq<char>>,
    pub in_loc: bool,
    pub locations: Seq<Seq<char>>,
    pub failed: bool,
}

/// Whether `name` opens a location: `loc` directly inside `sitemap` or
/// `url`, or `link` in an RSS or Atom feed.
pub open spec fn opens_location(name: Seq<char>, stack: Seq<Seq<char>>, root: Option<Seq<char>>) -> bool {
    ||| name == "loc"@ && stack.len() > 0 && (stack.last() == "sitemap"@ || stack.last() == "url"@)
    ||| name == "link"@ && (root == Some("rss"@) || root == Some("feed"@))
}

/// The scan after one more event.
pub open spec fn sitemap_step(st: SitemapScan, ev: XmlEv) -> SitemapScan {
    if st.failed {
        st
    } else {
        match ev {
            XmlEv::Start(name) => {
                let root = if st.root is None {
                    Some(name)
                } else {
                    st.root
                };
                let is_index = if st.root is None {
                    name == "sitemapindex"@
                } else {
                    st.is_index
                };
                SitemapScan {
                    is_index,
                    root,
                    stack: st.stack.push(name),
                    in_loc: if opens_location(name, st.stack, root) {
                        true
                    } else {
                        st.in_loc
                    },
                    locations: st.locations,
                    failed: false,
                }
            },
            XmlEv::Text(t) => match t {
                Some(s) => if st.in_loc {
                    match xml_unescape_spec(s) {
                        Some(u) => if trim_spec(u).len() > 0 {
                            SitemapScan { locations: st.locations.push(trim_spec(u)), ..st }
                        } else {
                            st
                        },
                        None => st,
                    }
                } else {
                    st
                },
                None => st,
            },
            XmlEv::End(name) => SitemapScan {
                in_loc: if name == "loc"@ || name == "link"@ {
                    false
                } else {
                    st.in_loc
                },
                stack: if st.stack.len() > 0 {
                    st.stack.drop_last()
                } else {
                    st.stack
                },
                ..st
            },
            XmlEv::Other => st,
            XmlEv::Error => SitemapScan { failed: true, ..st },
        }
    }
}

/// The scan after the events, from the empty scan.
pub open spec fn sitemap_scan(evs: Seq<XmlEv>) -> SitemapScan
    decreases evs.len(),
{
    if evs.len() == 0 {
        SitemapScan { is_index: false, root: None, stack: Seq::empty(), in_loc: false, locations: Seq::empty(), failed: false }
    } else {
        sitemap_step(sitemap_scan(evs.drop_last()), evs.last())
    }
}

proof fn lemma_failed_persists(evs: Seq<XmlEv>, k: int)
    requires
        0 <= k <= evs.len(),
        sitemap_scan(evs.take(k)).failed,
    ensures
        sitemap_scan(evs).failed,
    decreases evs.len() - k,
{
    if k == evs.len() {
        assert(evs.take(k) =~= evs);
    } else {
        assert(evs.take(k + 1).drop_last() =~= evs.take(k));
        lemma_failed_persists(evs, k + 1);
    }
}

fn name_in(name: &str, a: &str, b: &str) -> (r: bool)
    ensures
        r == (name@ == a@ || name@ == b@),
{
    str_eq(name, a) || str_eq(name, b)
}

/// Parses a sitemap URL set, sitemap index, or RSS/Atom feed: whether its
/// locations name further sitemaps (the root is `sitemapindex`) and the
/// locations it lists; `None` when the XML does not read or lists nothing.
pub fn parse_sitemap(xml: &[u8]) -> (r: Option<(bool, Vec<String>)>)
    ensures
        match r {
            Some((is_index, locs)) => {
                &&& !sitemap_scan(xml_events_spec(xml@)).failed
                &&& sitemap_scan(xml_events_spec(xml@)).locations.len() > 0
                &&& is_index == sitemap_scan(xml_events_spec(xml@)).is_index
                &&& views(locs@) == sitemap_scan(xml_events_spec(xml@)).locations
            },
            None => sitemap_scan(xml_events_spec(xml@)).failed || sitemap_scan(xml_events_spec(xml@)).locations.len() == 0,
        },
{
    let evs = read_xml_events(xml);
    let ghost ev = events_view(evs@);
    let mut is_index = false;
    let mut root: Option<String> = None;
    let mut stack: Vec<String> = Vec::new();
    let mut in_loc = false;
    let mut locations: Vec<String> = Vec::new();
    let mut i: usize = 0;
    assert(ev.take(0) =~= Seq::<XmlEv>::empty());
    assert(sitemap_scan(ev.take(0)) =~= (SitemapScan {
        is_index,
        root: crate::chunk_types::opt_view(root),
        stack: views(stack@),
        in_loc,
        locations: views(locations@),
        failed: false,
    }));
    while i < evs.len()
        invariant
            i <= evs.len(),
            ev == events_view(evs@),
            ev == xml_events_spec(xml@),
            !sitemap_scan(ev.take(i as int)).failed,
            sitemap_scan(ev.take(i as int)) == (SitemapScan {
                is_index,
                root: crate::chunk_types::opt_view(root),
                stack: views(stack@),
                in_loc,
                locations: views(locations@),
                failed: false,
            }),
        decreases evs.len() - i,
    {
        assert(ev.take(i + 1).drop_last() =~= ev.take(i as int));
        assert(ev.take(i + 1).last() == evs@[i as int]@);
        proof {
            reveal_strlit("loc");
            reveal_strlit("link");
        }
        match &evs[i] {
            XmlEvent::Start(name) => {
                let ghost st = views(stack@);
                if root.is_none() {
                    root = Some(name.clone());
                    is_index = str_eq(name.as_str(), "sitemapindex");
                }
                let opens = (str_eq(name.as_str(), "loc") && stack.len() > 0 && name_in(
                    stack[stack.len() - 1].as_str(),
                    "sitemap",
                    "url",
                )) || (str_eq(name.as_str(), "link") && match &root {
                    Some(r) => name_in(r.as_str(), "rss", "feed"),
                    None => false,
                });
                assert(stack.len() > 0 ==> st.last() == stack@[stack.len() - 1]@);
                if opens {
                    in_loc = true;
                }
                push_string(&mut stack, name.clone());
            },
            XmlEvent::Text(t) => {
                match t {
                    Some(s) => {
                        if in_loc {
                            match xml_unescape(s.as_str()) {
                                Some(u) => {
                                    let tu = trim_str(u.as_str());
                                    if !tu.as_str().is_empty() {
                                        push_string(&mut locations, tu);
                                    }
                                },
                                None => {},
                            }
                        }
                    },
                    None => {},
                }
            },
            XmlEvent::End(name) => {
                if name_in(name.as_str(), "loc", "link") {
                    in_loc = false;
                }
                let ghost st = views(stack@);
                if stack.len() > 0 {
                    stack.pop();
                    assert(views(stack@) =~= st.drop_last());
                }
            },
            XmlEvent::Other => {},
            XmlEvent::Error => {
                assert(sitemap_scan(ev.take(i + 1)).failed);
                proof {
                    lemma_failed_persists(ev, i + 1);
                }
                return None;
            },
        }
        i += 1;
    }
    assert(ev.take(evs.len() as int) =~= ev);
    if locations.len() == 0 {
        None
    } else {
        Some((is_index, locations))
    }
}

} // verus!
