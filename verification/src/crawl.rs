//! The decisions of a website crawl, apart from the fetching: which queued
//! page is validated next, when the crawl is over, what sitemap URLs are
//! queued, and what a fetched page adds to the results and the queue.
//!
//! The caller runs the loop: it asks `next_action`, fetches the page when
//! told to, hands the response to `record_page`, and repeats until `Stop`.
use vstd::prelude::*;
use crate::seqtext::views;
use crate::text::{ends_with_spec, ends_with_str};
use crate::weburl::{
    WebUrl, UrlParts, url_parse_spec, canonical_key, canonical_url, normalized_url, normalize_url,
    in_scope, same_scope, strip_trailing, strip_trailing_str, parse_url,
};
use crate::web::{ignored_host, is_ignored_domain};
use crate::pagetext::{looks_like_html, is_html_response};
use crate::pagelinks::{extract_page_links, html_page_links};
use crate::java_chunks::contains_string;
use crate::chunk_types::copy_strings;

verus! {

/// What the crawl loop does next.
#[derive(Debug)]
pub enum CrawlAction {
    /// The crawl is over (cancelled, nothing left, or the page limit met).
    Stop,
    /// Nothing is queued while fetches are in flight: wait and ask again.
    Wait,
    /// The popped page was validated already: ask again.
    Skip,
    /// Fetch this page; its links are followed while `depth` is below the
    /// crawl depth.
    Fetch { url: String, depth: usize },
}

/// A crawl action as the contracts see it.
pub enum ActionView {
    Stop,
    Wait,
    Skip,
    Fetch(Seq<char>, usize),
}

impl View for CrawlAction {
    type V = ActionView;

    open spec fn view(&self) -> ActionView {
        match self {
            CrawlAction::Stop => ActionView::Stop,
            CrawlAction::Wait => ActionView::Wait,
            CrawlAction::Skip => ActionView::Skip,
            CrawlAction::Fetch { url, depth } => ActionView::Fetch(url@, *depth),
        }
    }
}

/// A crawl's state as the contracts see it: the options, the keys of the
/// pages validated (`visited`), the keys ever queued or reported (`seen`),
/// the reported page keys in order (`results`), and the two queues of
/// (URL, depth) pairs.
pub struct CrawlView {
    pub start: UrlParts,
    pub depth: usize,
    pub same_domain_only: bool,
    pub max_pages: usize,
    pub visited: Seq<Seq<char>>,
    pub seen: Seq<Seq<char>>,
    pub results: Seq<Seq<char>>,
    pub queue: Seq<(Seq<char>, usize)>,
    pub sitemap: Seq<(Seq<char>, usize)>,
}

/// The state of one crawl run.
pub struct CrawlState {
    start: WebUrl,
    depth: usize,
    same_domain_only: bool,
    max_pages: usize,
    visited: Vec<String>,
    seen: Vec<String>,
    results: Vec<String>,
    queue: Vec<(String, usize)>,
    sitemap: Vec<(String, usize)>,
}

pub open spec fn queue_view(q: Seq<(String, usize)>) -> Seq<(Seq<char>, usize)> {
    Seq::new(q.len(), |i: int| (q[i].0@, q[i].1))
}

impl View for CrawlState {
    type V = CrawlView;

    closed spec fn view(&self) -> CrawlView {
        CrawlView {
            start: self.start@,
            depth: self.depth,
            same_domain_only: self.same_domain_only,
            max_pages: self.max_pages,
            visited: views(self.visited@),
            seen: views(self.seen@),
            results: views(self.results@),
            queue: queue_view(self.queue@),
            sitemap: queue_view(self.sitemap@),
        }
    }
}

/// What every crawl state keeps: at most `max_pages` pages validated, none
/// twice; no key seen twice; every seen key reported; nothing queued deeper
/// than the crawl depth; sitemap pages queued at depth 0.
pub open spec fn crawl_wf(s: CrawlView) -> bool {
    &&& s.visited.len() <= s.max_pages
    &&& s.visited.no_duplicates()
    &&& s.seen.no_duplicates()
    &&& forall|k: Seq<char>| s.seen.contains(k) ==> s.results.contains(k)
    &&& forall|i: int| 0 <= i < s.queue.len() ==> (#[trigger] s.queue[i]).1 <= s.depth
    &&& forall|i: int| 0 <= i < s.sitemap.len() ==> (#[trigger] s.sitemap[i]).1 == 0
}

/// The key a queued URL is validated under: its canonical key when it
/// parses, else the text without trailing slashes.
pub open spec fn visit_key(url: Seq<char>) -> Seq<char> {
    match url_parse_spec(url) {
        Ok(p) => canonical_key(p),
        Err(_) => strip_trailing(url, '/'),
    }
}

/// Validating a popped (URL, depth) pair: skipped when its key was
/// validated, the end when the page limit is met, else fetched.
pub open spec fn visit(s: CrawlView, item: (Seq<char>, usize)) -> (CrawlView, ActionView) {
    let k = visit_key(item.0);
    if s.visited.contains(k) {
        (s, ActionView::Skip)
    } else if s.visited.len() >= s.max_pages {
        (s, ActionView::Stop)
    } else {
        (CrawlView { visited: s.visited.push(k), ..s }, ActionView::Fetch(item.0, item.1))
    }
}

/// One turn of the crawl loop: stop when cancelled; else pop the link
/// queue, or the sitemap queue once no fetch is in flight; with nothing to
/// pop, stop when no fetch is in flight and wait otherwise.
pub open spec fn crawl_step(s: CrawlView, in_flight: usize, cancelled: bool) -> (CrawlView, ActionView) {
    if cancelled {
        (s, ActionView::Stop)
    } else if s.queue.len() > 0 {
        visit(CrawlView { queue: s.queue.skip(1), ..s }, s.queue[0])
    } else if in_flight == 0 && s.sitemap.len() > 0 {
        visit(CrawlView { sitemap: s.sitemap.skip(1), ..s }, s.sitemap[0])
    } else if in_flight == 0 {
        (s, ActionView::Stop)
    } else {
        (s, ActionView::Wait)
    }
}

pub open spec fn host_or_empty(h: Option<Seq<char>>) -> Seq<char> {
    match h {
        Some(x) => x,
        None => Seq::empty(),
    }
}

/// The parsed URL a sitemap entry is queued as: resolved against the start
/// page, HTTP(S), not on an ignored domain, and in scope when the crawl
/// keeps to its start.
pub open spec fn sitemap_candidate(s: Seq<char>, start: UrlParts, same: bool) -> Option<UrlParts> {
    match normalized_url(s, start) {
        Some(u) => match url_parse_spec(u) {
            Ok(p) => if ignored_host(host_or_empty(p.host)) || (same && !in_scope(p, start)) {
                None
            } else {
                Some(p)
            },
            Err(_) => None,
        },
        None => None,
    }
}

/// The seen keys and the sitemap queue after the first `n` sitemap URLs:
/// each candidate whose key is new is queued at depth 0.
pub open spec fn admit_sitemap(urls: Seq<Seq<char>>, n: int, start: UrlParts, same: bool, seen: Seq<Seq<char>>) -> (Seq<Seq<char>>, Seq<(Seq<char>, usize)>)
    decreases n,
{
    if n <= 0 {
        (seen, Seq::empty())
    } else {
        let prev = admit_sitemap(urls, n - 1, start, same, seen);
        match sitemap_candidate(urls[n - 1], start, same) {
            Some(p) => if prev.0.contains(canonical_key(p)) {
                prev
            } else {
                (prev.0.push(canonical_key(p)), prev.1.push((p.href, 0usize)))
            },
            None => prev,
        }
    }
}

/// The state after queueing sitemap URLs: the sitemap queue is replaced,
/// and the new keys are seen and reported.
pub open spec fn with_sitemap(s: CrawlView, urls: Seq<Seq<char>>) -> CrawlView {
    let a = admit_sitemap(urls, urls.len() as int, s.start, s.same_domain_only, s.seen);
    CrawlView { seen: a.0, sitemap: a.1, results: s.results + a.0.skip(s.seen.len() as int), ..s }
}

/// The seen keys and the new queue entries after the first `n` links of a
/// page: each link that parses and whose key is new is queued at depth `d`.
pub open spec fn admit_links(links: Seq<Seq<char>>, n: int, d: usize, seen: Seq<Seq<char>>) -> (Seq<Seq<char>>, Seq<(Seq<char>, usize)>)
    decreases n,
{
    if n <= 0 {
        (seen, Seq::empty())
    } else {
        let prev = admit_links(links, n - 1, d, seen);
        match url_parse_spec(links[n - 1]) {
            Ok(p) => if prev.0.contains(canonical_key(p)) {
                prev
            } else {
                (prev.0.push(canonical_key(p)), prev.1.push((links[n - 1], d)))
            },
            Err(_) => prev,
        }
    }
}

/// The state after following a page's links at depth `d`.
pub open spec fn with_links(s: CrawlView, links: Seq<Seq<char>>, d: usize) -> CrawlView {
    let a = admit_links(links, links.len() as int, d, s.seen);
    CrawlView { seen: a.0, queue: s.queue + a.1, results: s.results + a.0.skip(s.seen.len() as int), ..s }
}

/// The URL a fetched page's links resolve against: the requested URL when
/// it ends in `/` and the response URL lost that slash (and it parses),
/// else the response URL.
pub open spec fn document_base_of(requested: Seq<char>, response: UrlParts) -> UrlParts {
    if ends_with_spec(requested, "/"@) && !ends_with_spec(response.path, "/"@) {
        match url_parse_spec(requested) {
            Ok(p) => p,
            Err(_) => response,
        }
    } else {
        response
    }
}

/// The results once a page's key is reported (kept once).
pub open spec fn report(results: Seq<Seq<char>>, key: Seq<char>) -> Seq<Seq<char>> {
    if results.contains(key) {
        results
    } else {
        results.push(key)
    }
}

pub open spec fn opt_pair_view(r: Option<(String, usize)>) -> Option<(Seq<char>, usize)> {
    match r {
        Some(p) => Some((p.0@, p.1)),
        None => None,
    }
}

proof fn lemma_admit_sitemap(urls: Seq<Seq<char>>, n: int, start: UrlParts, same: bool, seen: Seq<Seq<char>>)
    requires
        0 <= n <= urls.len(),
        seen.no_duplicates(),
    ensures
        ({
            let a = admit_sitemap(urls, n, start, same, seen);
            &&& a.0.len() >= seen.len()
            &&& a.0.take(seen.len() as int) == seen
            &&& a.0.no_duplicates()
            &&& a.1.len() == a.0.len() - seen.len()
            &&& forall|i: int| 0 <= i < a.1.len() ==> (#[trigger] a.1[i]).1 == 0
        }),
    decreases n,
{
    if n > 0 {
        lemma_admit_sitemap(urls, n - 1, start, same, seen);
        let prev = admit_sitemap(urls, n - 1, start, same, seen);
        match sitemap_candidate(urls[n - 1], start, same) {
            Some(p) => {
                if !prev.0.contains(canonical_key(p)) {
                    assert(prev.0.push(canonical_key(p)).take(seen.len() as int) =~= prev.0.take(seen.len() as int));
                }
            },
            None => {},
        }
    } else {
        assert(seen.take(seen.len() as int) =~= seen);
    }
}

proof fn lemma_admit_links(links: Seq<Seq<char>>, n: int, d: usize, seen: Seq<Seq<char>>)
    requires
        0 <= n <= links.len(),
        seen.no_duplicates(),
    ensures
        ({
            let a = admit_links(links, n, d, seen);
            &&& a.0.len() >= seen.len()
            &&& a.0.take(seen.len() as int) == seen
            &&& a.0.no_duplicates()
            &&& a.1.len() == a.0.len() - seen.len()
            &&& forall|i: int| 0 <= i < a.1.len() ==> (#[trigger] a.1[i]).1 == d
        }),
    decreases n,
{
    if n > 0 {
        lemma_admit_links(links, n - 1, d, seen);
        let prev = admit_links(links, n - 1, d, seen);
        match url_parse_spec(links[n - 1]) {
            Ok(p) => {
                if !prev.0.contains(canonical_key(p)) {
                    assert(prev.0.push(canonical_key(p)).take(seen.len() as int) =~= prev.0.take(seen.len() as int));
                }
            },
            Err(_) => {},
        }
    } else {
        assert(seen.take(seen.len() as int) =~= seen);
    }
}

/// Growing `seen` by new keys and `results` by the same keys keeps every
/// seen key reported.
proof fn lemma_seen_reported(seen: Seq<Seq<char>>, results: Seq<Seq<char>>, seen2: Seq<Seq<char>>)
    requires
        forall|k: Seq<char>| seen.contains(k) ==> results.contains(k),
        seen2.len() >= seen.len(),
        seen2.take(seen.len() as int) == seen,
    ensures
        forall|k: Seq<char>| seen2.contains(k) ==> (results + seen2.skip(seen.len() as int)).contains(k),
{
    let r2 = results + seen2.skip(seen.len() as int);
    assert forall|k: Seq<char>| seen2.contains(k) implies r2.contains(k) by {
        let i = choose|i: int| 0 <= i < seen2.len() && seen2[i] == k;
        if i < seen.len() {
            assert(seen.contains(k)) by {
                assert(seen[i] == seen2.take(seen.len() as int)[i]);
            }
            let j = choose|j: int| 0 <= j < results.len() && results[j] == k;
            assert(r2[j] == k);
        } else {
            assert(r2[results.len() + (i - seen.len())] == k);
        }
    }
}

impl CrawlState {
    /// A crawl from `start`: its key seen and reported, the start page
    /// queued at depth 0, nothing validated yet.
    pub fn new(start: &WebUrl, depth: usize, same_domain_only: bool, max_pages: usize) -> (r: CrawlState)
        ensures
            r@ == (CrawlView {
                start: start@,
                depth,
                same_domain_only,
                max_pages,
                visited: Seq::empty(),
                seen: seq![canonical_key(start@)],
                results: seq![canonical_key(start@)],
                queue: seq![(start@.href, 0usize)],
                sitemap: Seq::empty(),
            }),
            crawl_wf(r@),
    {
        let key = canonical_url(start);
        let key2 = key.clone();
        let mut seen: Vec<String> = Vec::new();
        seen.push(key);
        let mut results: Vec<String> = Vec::new();
        results.push(key2);
        let mut queue: Vec<(String, usize)> = Vec::new();
        queue.push((start.href.clone(), 0));
        let r = CrawlState {
            start: start.copied(),
            depth,
            same_domain_only,
            max_pages,
            visited: Vec::new(),
            seen,
            results,
            queue,
            sitemap: Vec::new(),
        };
        assert(views(r.seen@) =~= seq![canonical_key(start@)]);
        assert(views(r.results@) =~= seq![canonical_key(start@)]);
        assert(queue_view(r.queue@) =~= seq![(start@.href, 0usize)]);
        assert(views(r.visited@) =~= Seq::<Seq<char>>::empty());
        assert(queue_view(r.sitemap@) =~= Seq::<(Seq<char>, usize)>::empty());
        r
    }

    /// The reported page keys, in the order they were found.
    pub fn results(&self) -> (r: Vec<String>)
        ensures
            views(r@) == self@.results,
    {
        copy_strings(&self.results)
    }

    /// How many page keys are reported so far.
    pub fn found_count(&self) -> (r: usize)
        ensures
            r == self@.results.len(),
    {
        self.results.len()
    }

    /// How many pages were validated so far.
    pub fn visited_count(&self) -> (r: usize)
        ensures
            r == self@.visited.len(),
    {
        self.visited.len()
    }

    /// One turn of the crawl loop (see `crawl_step`): pops the next
    /// (URL, depth) pair and says whether to fetch it, skip it, wait or
    /// stop. A fetched page's key becomes validated.
    pub fn next_action(&mut self, in_flight: usize, cancelled: bool) -> (r: CrawlAction)
        requires
            crawl_wf(old(self)@),
        ensures
            (final(self)@, r@) == crawl_step(old(self)@, in_flight, cancelled),
            crawl_wf(final(self)@),
    {
        let ghost s0 = self@;
        if cancelled {
            return CrawlAction::Stop;
        }
        let item: (String, usize);
        if self.queue.len() > 0 {
            item = self.queue.remove(0);
            assert(queue_view(self.queue@) =~= s0.queue.skip(1));
        } else if in_flight == 0 && self.sitemap.len() > 0 {
            item = self.sitemap.remove(0);
            assert(queue_view(self.sitemap@) =~= s0.sitemap.skip(1));
        } else if in_flight == 0 {
            return CrawlAction::Stop;
        } else {
            return CrawlAction::Wait;
        }
        let key = match parse_url(item.0.as_str()) {
            Ok(u) => canonical_url(&u),
            Err(_) => strip_trailing_str(item.0.as_str(), '/'),
        };
        assert(key@ == visit_key(item.0@));
        if contains_string(&self.visited, key.as_str()) {
            return CrawlAction::Skip;
        }
        if self.visited.len() >= self.max_pages {
            return CrawlAction::Stop;
        }
        self.visited.push(key);
        assert(views(self.visited@) =~= s0.visited.push(visit_key(item.0@)));
        CrawlAction::Fetch { url: item.0, depth: item.1 }
    }

    /// Queues the URLs a sitemap listed (see `with_sitemap`): they wait in
    /// their own queue, fetched only once the link queue drains.
    pub fn enqueue_sitemap_urls(&mut self, sitemap_urls: &Vec<String>)
        requires
            crawl_wf(old(self)@),
        ensures
            final(self)@ == with_sitemap(old(self)@, views(sitemap_urls@)),
            crawl_wf(final(self)@),
    {
        let ghost s0 = self@;
        let ghost urls = views(sitemap_urls@);
        let mut queue: Vec<(String, usize)> = Vec::new();
        let mut i: usize = 0;
        while i < sitemap_urls.len()
            invariant
                i <= sitemap_urls@.len(),
                urls == views(sitemap_urls@),
                s0.seen.no_duplicates(),
                self@.start == s0.start,
                self.start@ == s0.start,
                self.same_domain_only == s0.same_domain_only,
                self@ == (CrawlView { seen: self@.seen, results: self@.results, ..s0 }),
                self@.seen == admit_sitemap(urls, i as int, s0.start, s0.same_domain_only, s0.seen).0,
                queue_view(queue@) == admit_sitemap(urls, i as int, s0.start, s0.same_domain_only, s0.seen).1,
                self@.results == s0.results + self@.seen.skip(s0.seen.len() as int),
                self@.seen.len() >= s0.seen.len(),
            decreases sitemap_urls.len() - i,
        {
            proof {
                lemma_admit_sitemap(urls, i as int, s0.start, s0.same_domain_only, s0.seen);
            }
            let ghost prev = admit_sitemap(urls, i as int, s0.start, s0.same_domain_only, s0.seen);
            assert(urls[i as int] == sitemap_urls@[i as int]@);
            match normalize_url(sitemap_urls[i].as_str(), &self.start) {
                Some(u) => match parse_url(u.as_str()) {
                    Ok(p) => {
                        let host_ok = match &p.host {
                            Some(h) => !is_ignored_domain(h.as_str()),
                            None => !is_ignored_domain(""),
                        };
                        proof {
                            reveal_strlit("");
                            assert(""@ =~= Seq::<char>::empty());
                        }
                        if host_ok && !(self.same_domain_only && !same_scope(&p, &self.start)) {
                            let key = canonical_url(&p);
                            assert(sitemap_candidate(urls[i as int], s0.start, s0.same_domain_only) == Some(p@));
                            if !contains_string(&self.seen, key.as_str()) {
                                let ghost before = self@;
                                let key2 = key.clone();
                                self.seen.push(key);
                                self.results.push(key2);
                                queue.push((p.href, 0));
                                proof {
                                    let nk = canonical_key(p@);
                                    assert(self@.seen =~= prev.0.push(nk));
                                    assert(self@.results =~= before.results.push(nk));
                                    assert(queue_view(queue@) =~= prev.1.push((p@.href, 0usize)));
                                    assert(prev.0.push(nk).skip(s0.seen.len() as int) =~= prev.0.skip(s0.seen.len() as int).push(nk));
                                    assert(self@.results =~= s0.results + self@.seen.skip(s0.seen.len() as int));
                                }
                            }
                        } else {
                            assert(sitemap_candidate(urls[i as int], s0.start, s0.same_domain_only) is None);
                        }
                    },
                    Err(_) => {},
                },
                None => {},
            }
            i += 1;
        }
        proof {
            lemma_admit_sitemap(urls, urls.len() as int, s0.start, s0.same_domain_only, s0.seen);
            let a = admit_sitemap(urls, urls.len() as int, s0.start, s0.same_domain_only, s0.seen);
            lemma_seen_reported(s0.seen, s0.results, a.0);
        }
        self.sitemap = queue;
    }

    /// Follows a page's links at depth `cur_depth + 1` (see `with_links`).
    pub fn admit_page_links(&mut self, links: &Vec<String>, cur_depth: usize)
        requires
            crawl_wf(old(self)@),
            cur_depth < old(self)@.depth,
        ensures
            final(self)@ == with_links(old(self)@, views(links@), (cur_depth + 1) as usize),
            crawl_wf(final(self)@),
    {
        let ghost s0 = self@;
        let ghost ls = views(links@);
        let d = cur_depth + 1;
        let mut i: usize = 0;
        while i < links.len()
            invariant
                i <= links@.len(),
                ls == views(links@),
                s0.seen.no_duplicates(),
                d == cur_depth + 1,
                self@ == (CrawlView { seen: self@.seen, results: self@.results, queue: self@.queue, ..s0 }),
                self@.seen == admit_links(ls, i as int, d, s0.seen).0,
                self@.queue == s0.queue + admit_links(ls, i as int, d, s0.seen).1,
                self@.results == s0.results + self@.seen.skip(s0.seen.len() as int),
                self@.seen.len() >= s0.seen.len(),
            decreases links.len() - i,
        {
            proof {
                lemma_admit_links(ls, i as int, d, s0.seen);
            }
            let ghost prev = admit_links(ls, i as int, d, s0.seen);
            assert(ls[i as int] == links@[i as int]@);
            match parse_url(links[i].as_str()) {
                Ok(p) => {
                    let key = canonical_url(&p);
                    if !contains_string(&self.seen, key.as_str()) {
                        let ghost before = self@;
                        let key2 = key.clone();
                        let link = links[i].clone();
                        assert(link@ == ls[i as int]);
                        self.seen.push(key);
                        self.results.push(key2);
                        self.queue.push((link, d));
                        proof {
                            let nk = canonical_key(p@);
                            assert(self@.seen =~= prev.0.push(nk));
                            assert(self@.results =~= before.results.push(nk));
                            assert(self@.queue =~= before.queue.push((ls[i as int], d)));
                            assert(self@.queue =~= s0.queue + prev.1.push((ls[i as int], d)));
                            assert(prev.0.push(nk).skip(s0.seen.len() as int) =~= prev.0.skip(s0.seen.len() as int).push(nk));
                            assert(self@.results =~= s0.results + self@.seen.skip(s0.seen.len() as int));
                        }
                    }
                },
                Err(_) => {},
            }
            i += 1;
        }
        proof {
            lemma_admit_links(ls, ls.len() as int, d, s0.seen);
            let a = admit_links(ls, ls.len() as int, d, s0.seen);
            lemma_seen_reported(s0.seen, s0.results, a.0);
            assert forall|j: int| 0 <= j < self@.queue.len() implies (#[trigger] self@.queue[j]).1 <= self@.depth by {
                if j >= s0.queue.len() {
                    assert(self@.queue[j] == a.1[j - s0.queue.len()]);
                }
            }
        }
    }

    /// Records a fetched page (the tail of validating one page): the page
    /// counts only when it holds HTML; its key, taken from the URL its links
    /// resolve against, is reported once; while `cur_depth` is below the
    /// crawl depth its in-scope links are followed. Returns the key and the
    /// number of reported keys for the progress event, or `None` when the
    /// response is not HTML. The links are those `extract_page_links` reads
    /// from the body.
    pub fn record_page(&mut self, url_str: &str, cur_depth: usize, response_url: &WebUrl, content_type: &str, body: &str) -> (r: Option<(String, usize)>)
        requires
            crawl_wf(old(self)@),
        ensures
            crawl_wf(final(self)@),
            ({
                let base = document_base_of(url_str@, response_url@);
                let key = canonical_key(base);
                let s1 = CrawlView { results: report(old(self)@.results, key), ..old(self)@ };
                if !looks_like_html(content_type@, body@) {
                    r is None && final(self)@ == old(self)@
                } else {
                    &&& opt_pair_view(r) == Some((key, s1.results.len() as usize))
                    &&& cur_depth >= old(self)@.depth ==> final(self)@ == s1
                    &&& cur_depth < old(self)@.depth ==> final(self)@ == with_links(s1, html_page_links(body@, base, s1.same_domain_only, s1.start), (cur_depth + 1) as usize)
                }
            }),
    {
        let ghost s0 = self@;
        proof {
            reveal_strlit("/");
        }
        let base = if ends_with_str(url_str, "/") && !ends_with_str(response_url.path.as_str(), "/") {
            match parse_url(url_str) {
                Ok(p) => p,
                Err(_) => response_url.copied(),
            }
        } else {
            response_url.copied()
        };
        assert(base@ == document_base_of(url_str@, response_url@));
        let key = canonical_url(&base);
        if !is_html_response(content_type, body) {
            return None;
        }
        if !contains_string(&self.results, key.as_str()) {
            let ghost before = self@;
            self.results.push(key.clone());
            assert(self@.results =~= before.results.push(key@));
            proof {
                assert forall|k: Seq<char>| self@.seen.contains(k) implies self@.results.contains(k) by {
                    let j = choose|j: int| 0 <= j < before.results.len() && before.results[j] == k;
                    assert(self@.results[j] == k);
                }
            }
        }
        let ghost s1 = self@;
        assert(s1 == CrawlView { results: report(s0.results, key@), ..s0 });
        let found_count = self.results.len();
        if cur_depth >= self.depth {
            return Some((key, found_count));
        }
        let links = extract_page_links(body, &base, self.same_domain_only, &self.start);
        self.admit_page_links(&links, cur_depth);
        Some((key, found_count))
    }

    /// The end of a crawl: its reported keys, or an error when it was
    /// cancelled.
    pub fn finish(&self, cancelled: bool) -> (r: Result<Vec<String>, String>)
        ensures
            match r {
                Ok(v) => !cancelled && views(v@) == self@.results,
                Err(e) => cancelled && e@ == "website crawl cancelled"@ && crate::text::contains_spec(
                    e@,
                    "cancelled"@,
                ),
            },
    {
        if cancelled {
            proof {
                lemma_cancel_message_names_cancellation();
            }
            Err("website crawl cancelled".to_string())
        } else {
            Ok(self.results())
        }
    }
}

/// The message of a cancelled crawl says it was cancelled.
proof fn lemma_cancel_message_names_cancellation()
    ensures
        crate::text::contains_spec("website crawl cancelled"@, "cancelled"@),
{
    reveal_strlit("website crawl cancelled");
    reveal_strlit("cancelled");
    assert("website crawl cancelled"@.subrange(14, 23) =~= "cancelled"@);
    assert(crate::text::occurs_at("website crawl cancelled"@, "cancelled"@, 14));
}

/// Law: once the crawl is cancelled it ends. A cancelled turn stops and
/// leaves the state as it was, whatever is queued or in flight, so no
/// further page is fetched; and a crawl finished as cancelled fails with a
/// message that says so, never with its results.
pub proof fn lemma_cancelled_crawl_stops(s: CrawlView, in_flight: usize)
    ensures
        crawl_step(s, in_flight, true) == (s, ActionView::Stop),
        crate::text::contains_spec("website crawl cancelled"@, "cancelled"@),
{
    lemma_cancel_message_names_cancellation();
}


} // verus!
