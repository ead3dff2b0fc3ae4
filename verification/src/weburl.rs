//! URLs as the crawler reads them, and the rules built on them: turning a
//! typed address into a URL, resolving links, scope checks, canonical keys,
//! and the sitemap locations named by robots.txt and plain-text sitemaps.
//! Parsing and resolution are the `url` crate's; the rules are verified.
use vstd::prelude::*;
use crate::text::{
    chars_of, string_of, string_of_range, trim_chars, trim_str, trim_spec, starts_with_spec,
    starts_with_str, contains_spec, contains_str, str_eq, ascii_lower_seq, ascii_lower_chars,
    concat_str, utf8_lossy, utf8_lossy_spec,
};
use crate::seqtext::{views, push_string, split_newline_chars, vviews};
use crate::normalize::{inclusive_lines, strip_cr};
use crate::chunk_types::opt_view;
use crate::sql::{first_index, first_index_exec, lemma_first_index_bounds};

verus! {

// ---------------------------------------------------------------------------
// Parsed URLs
// ---------------------------------------------------------------------------

/// A parsed URL as the contracts see it.
pub struct UrlParts {
    pub href: Seq<char>,
    pub scheme: Seq<char>,
    pub host: Option<Seq<char>>,
    pub port: Option<u16>,
    pub path: Seq<char>,
}

/// A parsed absolute URL: its serialization and the parts the crawler reads
/// (scheme, host, port or the scheme's default port, path).
#[derive(Debug, Clone, PartialEq)]
pub struct WebUrl {
    pub href: String,
    pub scheme: String,
    pub host: Option<String>,
    pub port: Option<u16>,
    pub path: String,
}

impl View for WebUrl {
    type V = UrlParts;

    open spec fn view(&self) -> UrlParts {
        UrlParts { href: self.href@, scheme: self.scheme@, host: opt_view(self.host), port: self.port, path: self.path@ }
    }
}

/// What `Url::parse` gives for a text: the parsed URL, or the text of the
/// parse error.
pub uninterp spec fn url_parse_spec(s: Seq<char>) -> Result<UrlParts, Seq<char>>;

/// What `Url::join` gives for the URL serialized as `base` and a reference.
pub uninterp spec fn url_join_spec(base: Seq<char>, reference: Seq<char>) -> Option<UrlParts>;

/// The URL serialized as `href` after `Url::set_fragment(None)`.
pub uninterp spec fn url_without_fragment_spec(href: Seq<char>) -> Option<UrlParts>;

/// The URL serialized as `href` after `Url::set_path(path)`.
pub uninterp spec fn url_with_path_spec(href: Seq<char>, path: Seq<char>) -> Option<UrlParts>;

/// The URL serialized as `href` after `Url::set_query(None)`.
pub uninterp spec fn url_without_query_spec(href: Seq<char>) -> Option<UrlParts>;

/// `Url::parse`, read into a `WebUrl` (`as_str`, `scheme`, `host_str`,
/// `port_or_known_default`, `path`), or the parse error's text. The
/// contract names the result: a function of the text alone.
#[verifier::external_body]
pub(crate) fn parse_url(s: &str) -> (r: Result<WebUrl, String>)
    ensures
        match r {
            Ok(u) => url_parse_spec(s@) == Ok::<UrlParts, Seq<char>>(u@),
            Err(e) => url_parse_spec(s@) == Err::<UrlParts, Seq<char>>(e@),
        },
{
    match url::Url::parse(s) {
        Ok(u) => Ok(WebUrl {
            href: u.as_str().to_string(),
            scheme: u.scheme().to_string(),
            host: u.host_str().map(str::to_string),
            port: u.port_or_known_default(),
            path: u.path().to_string(),
        }),
        Err(e) => Err(e.to_string()),
    }
}

/// `Url::join` on the URL `base` serializes (read back with `Url::parse`),
/// with errors dropped. The contract names the result: a function of the
/// base's serialization and the reference.
#[verifier::external_body]
fn join_url(base: &WebUrl, reference: &str) -> (r: Option<WebUrl>)
    ensures
        match r {
            Some(u) => url_join_spec(base.href@, reference@) == Some(u@),
            None => url_join_spec(base.href@, reference@) is None,
        },
{
    let joined = match url::Url::parse(&base.href) {
        Ok(b) => b.join(reference),
        Err(e) => Err(e),
    };
    match joined {
        Ok(u) => Some(WebUrl {
                href: u.as_str().to_string(),
                scheme: u.scheme().to_string(),
                host: u.host_str().map(str::to_string),
                port: u.port_or_known_default(),
                path: u.path().to_string(),
            }),
        Err(_) => None,
    }
}

/// `Url::set_fragment(None)` on the URL `u` serializes. The contract names
/// the result: a function of the serialization.
#[verifier::external_body]
fn url_without_fragment(u: &WebUrl) -> (r: Option<WebUrl>)
    ensures
        match r {
            Some(v) => url_without_fragment_spec(u.href@) == Some(v@),
            None => url_without_fragment_spec(u.href@) is None,
        },
{
    match url::Url::parse(&u.href) {
        Ok(mut v) => {
            v.set_fragment(None);
            Some(WebUrl {
                href: v.as_str().to_string(),
                scheme: v.scheme().to_string(),
                host: v.host_str().map(str::to_string),
                port: v.port_or_known_default(),
                path: v.path().to_string(),
            })
        },
        Err(_) => None,
    }
}

/// `Url::set_path` on the URL `u` serializes. The contract names the
/// result: a function of the serialization and the path.
#[verifier::external_body]
fn url_with_path(u: &WebUrl, path: &str) -> (r: Option<WebUrl>)
    ensures
        match r {
            Some(v) => url_with_path_spec(u.href@, path@) == Some(v@),
            None => url_with_path_spec(u.href@, path@) is None,
        },
{
    match url::Url::parse(&u.href) {
        Ok(mut v) => {
            v.set_path(path);
            Some(WebUrl {
                href: v.as_str().to_string(),
                scheme: v.scheme().to_string(),
                host: v.host_str().map(str::to_string),
                port: v.port_or_known_default(),
                path: v.path().to_string(),
            })
        },
        Err(_) => None,
    }
}

/// `Url::set_query(None)` on the URL `u` serializes. The contract names
/// the result: a function of the serialization.
#[verifier::external_body]
fn url_without_query(u: &WebUrl) -> (r: Option<WebUrl>)
    ensures
        match r {
            Some(v) => url_without_query_spec(u.href@) == Some(v@),
            None => url_without_query_spec(u.href@) is None,
        },
{
    match url::Url::parse(&u.href) {
        Ok(mut v) => {
            v.set_query(None);
            Some(WebUrl {
                href: v.as_str().to_string(),
                scheme: v.scheme().to_string(),
                host: v.host_str().map(str::to_string),
                port: v.port_or_known_default(),
                path: v.path().to_string(),
            })
        },
        Err(_) => None,
    }
}

impl WebUrl {
    /// A copy of the URL.
    pub fn copied(&self) -> (r: WebUrl)
        ensures
            r@ == self@,
    {
        WebUrl {
            href: self.href.clone(),
            scheme: self.scheme.clone(),
            host: crate::chunk_types::copy_opt(&self.host),
            port: self.port,
            path: self.path.clone(),
        }
    }

    /// Parses an absolute URL; the error is the parser's message.
    pub fn parse(s: &str) -> (r: Result<WebUrl, String>)
        ensures
            match r {
                Ok(u) => url_parse_spec(s@) == Ok::<UrlParts, Seq<char>>(u@),
                Err(e) => url_parse_spec(s@) == Err::<UrlParts, Seq<char>>(e@),
            },
    {
        parse_url(s)
    }
}

// ---------------------------------------------------------------------------
// Canonical keys, origins and scope
// ---------------------------------------------------------------------------

/// `s` without its trailing `c` characters.
pub open spec fn strip_trailing(s: Seq<char>, c: char) -> Seq<char>
    decreases s.len(),
{
    if s.len() > 0 && s.last() == c {
        strip_trailing(s.drop_last(), c)
    } else {
        s
    }
}

pub(crate) fn strip_trailing_str(s: &str, c: char) -> (r: String)
    ensures
        r@ == strip_trailing(s@, c),
{
    let v = chars_of(s);
    let mut end = v.len();
    assert(v@.take(v.len() as int) =~= v@);
    while end > 0 && v[end - 1] == c
        invariant
            end <= v.len(),
            strip_trailing(v@.take(end as int), c) == strip_trailing(v@, c),
        decreases end,
    {
        assert(v@.take(end as int).drop_last() =~= v@.take(end - 1));
        end -= 1;
    }
    string_of_range(&v, 0, end)
}

/// `o`'s URL, or `u` when there is none.
pub open spec fn or_same(o: Option<UrlParts>, u: UrlParts) -> UrlParts {
    match o {
        Some(v) => v,
        None => u,
    }
}

/// The key under which a URL is visited and reported: its serialization
/// without the fragment, trailing slashes removed.
pub open spec fn canonical_key(u: UrlParts) -> Seq<char> {
    strip_trailing(or_same(url_without_fragment_spec(u.href), u).href, '/')
}

/// The canonical form of a URL: fragment and trailing slashes removed.
pub fn canonical_url(u: &WebUrl) -> (r: String)
    ensures
        r@ == canonical_key(u@),
{
    match url_without_fragment(u) {
        Some(v) => strip_trailing_str(v.href.as_str(), '/'),
        None => strip_trailing_str(u.href.as_str(), '/'),
    }
}

/// The root of a site: the URL with path `/` and no query or fragment.
pub open spec fn origin_of(u: UrlParts) -> UrlParts {
    let a = or_same(url_with_path_spec(u.href, "/"@), u);
    let b = or_same(url_without_query_spec(a.href), a);
    or_same(url_without_fragment_spec(b.href), b)
}

/// The root of the site a URL belongs to.
pub fn origin_url(start: &WebUrl) -> (r: WebUrl)
    ensures
        r@ == origin_of(start@),
{
    let a = match url_with_path(start, "/") {
        Some(v) => v,
        None => start.copied(),
    };
    let b = match url_without_query(&a) {
        Some(v) => v,
        None => a,
    };
    match url_without_fragment(&b) {
        Some(v) => v,
        None => b,
    }
}

pub open spec fn host_key(h: Option<Seq<char>>) -> Option<Seq<char>> {
    match h {
        Some(x) => Some(ascii_lower_seq(x)),
        None => None,
    }
}

/// Whether `url` lies in the part of the site that `start` opens: the same
/// host (ignoring ASCII case) and port, and a path equal to or under the
/// start's path (trailing slashes ignored).
pub open spec fn in_scope(url: UrlParts, start: UrlParts) -> bool {
    let sp = strip_trailing(start.path, '/');
    let up = strip_trailing(url.path, '/');
    &&& host_key(url.host) == host_key(start.host)
    &&& url.port == start.port
    &&& (sp.len() == 0 || up == sp || starts_with_spec(up, sp.push('/')))
}

fn host_key_of(h: &Option<String>) -> (r: Option<Vec<char>>)
    ensures
        match r {
            Some(v) => host_key(opt_view(*h)) == Some(v@),
            None => host_key(opt_view(*h)) is None,
        },
{
    match h {
        Some(x) => Some(ascii_lower_chars(&chars_of(x.as_str()))),
        None => None,
    }
}

/// Whether `url` stays within the scope of the crawl's start URL.
pub fn same_scope(url: &WebUrl, start: &WebUrl) -> (r: bool)
    ensures
        r == in_scope(url@, start@),
{
    let hu = host_key_of(&url.host);
    let hs = host_key_of(&start.host);
    let same_host = match (&hu, &hs) {
        (Some(a), Some(b)) => crate::text::chars_eq(a, b),
        (None, None) => true,
        _ => false,
    };
    if !same_host || url.port != start.port {
        return false;
    }
    let sp = strip_trailing_str(start.path.as_str(), '/');
    if sp.as_str().is_empty() {
        return true;
    }
    let up = strip_trailing_str(url.path.as_str(), '/');
    if str_eq(up.as_str(), sp.as_str()) {
        return true;
    }
    let prefix = concat_str(sp.as_str(), "/");
    proof {
        reveal_strlit("/");
        assert(prefix@ =~= sp@.push('/'));
    }
    starts_with_str(up.as_str(), prefix.as_str())
}

// ---------------------------------------------------------------------------
// Links and addresses
// ---------------------------------------------------------------------------

pub open spec fn is_http(scheme: Seq<char>) -> bool {
    scheme == "http"@ || scheme == "https"@
}

/// What `normalize_url` gives: the reference resolved against the base,
/// without its fragment, when that is an HTTP(S) URL.
pub open spec fn normalized_url(reference: Seq<char>, base: UrlParts) -> Option<Seq<char>> {
    match url_join_spec(base.href, reference) {
        Some(j) => if is_http(j.scheme) {
            Some(or_same(url_without_fragment_spec(j.href), j).href)
        } else {
            None
        },
        None => None,
    }
}

/// Resolves `href` against the document's base URL and removes its
/// fragment; `None` when it does not resolve or is not HTTP(S).
pub fn normalize_url(href: &str, base: &WebUrl) -> (r: Option<String>)
    ensures
        opt_view(r) == normalized_url(href@, base@),
{
    let joined = match join_url(base, href) {
        Some(j) => j,
        None => {
            return None;
        },
    };
    proof {
        reveal_strlit("http");
        reveal_strlit("https");
    }
    if !(str_eq(joined.scheme.as_str(), "http") || str_eq(joined.scheme.as_str(), "https")) {
        return None;
    }
    match url_without_fragment(&joined) {
        Some(v) => Some(v.href),
        None => Some(joined.href),
    }
}

/// Why a typed website address was refused.
#[derive(Debug, Clone, PartialEq)]
pub enum WebsiteUrlError {
    /// Nothing but whitespace was given.
    Empty,
    /// The address does not parse; the address as given and the parser's message.
    Invalid(String, String),
    /// The scheme is neither `http` nor `https`.
    UnsupportedScheme(String),
    /// The URL has no host; the address as given.
    NoDomain(String),
}

/// The URL text tried for a typed address: `https:` before a
/// scheme-relative address, the text itself when it names a scheme, and
/// `https://` before anything else.
pub open spec fn website_candidate(t: Seq<char>) -> Seq<char> {
    if starts_with_spec(t, "//"@) {
        "https:"@ + t
    } else if contains_spec(t, "://"@) {
        t
    } else {
        "https://"@ + t
    }
}

/// Turns a typed website address into an absolute HTTP(S) URL: HTTPS for
/// bare and scheme-relative addresses, explicit HTTP(S) kept.
pub fn normalize_website_url(raw: &str) -> (r: Result<String, WebsiteUrlError>)
    ensures
        match r {
            Ok(s) => {
                &&& trim_spec(raw@).len() > 0
                &&& url_parse_spec(website_candidate(trim_spec(raw@))) matches Ok(p)
                &&& is_http(p.scheme)
                &&& p.host is Some
                &&& s@ == p.href
            },
            Err(WebsiteUrlError::Empty) => trim_spec(raw@).len() == 0,
            Err(WebsiteUrlError::Invalid(given, reason)) => {
                &&& trim_spec(raw@).len() > 0
                &&& given@ == raw@
                &&& url_parse_spec(website_candidate(trim_spec(raw@))) == Err::<UrlParts, Seq<char>>(reason@)
            },
            Err(WebsiteUrlError::UnsupportedScheme(scheme)) => {
                &&& trim_spec(raw@).len() > 0
                &&& url_parse_spec(website_candidate(trim_spec(raw@))) matches Ok(p)
                &&& !is_http(p.scheme)
                &&& scheme@ == p.scheme
            },
            Err(WebsiteUrlError::NoDomain(given)) => {
                &&& trim_spec(raw@).len() > 0
                &&& given@ == raw@
                &&& url_parse_spec(website_candidate(trim_spec(raw@))) matches Ok(p)
                &&& is_http(p.scheme)
                &&& p.host is None
            },
        },
{
    let t = trim_str(raw);
    if t.as_str().is_empty() {
        return Err(WebsiteUrlError::Empty);
    }
    let ts = t.as_str();
    let candidate = if starts_with_str(ts, "//") {
        concat_str("https:", ts)
    } else if contains_str(ts, "://") {
        ts.to_owned()
    } else {
        concat_str("https://", ts)
    };
    let parsed = match parse_url(candidate.as_str()) {
        Ok(p) => p,
        Err(e) => {
            return Err(WebsiteUrlError::Invalid(raw.to_owned(), e));
        },
    };
    if !(str_eq(parsed.scheme.as_str(), "http") || str_eq(parsed.scheme.as_str(), "https")) {
        return Err(WebsiteUrlError::UnsupportedScheme(parsed.scheme));
    }
    if parsed.host.is_none() {
        return Err(WebsiteUrlError::NoDomain(raw.to_owned()));
    }
    Ok(parsed.href)
}

// ---------------------------------------------------------------------------
// Sitemap locations
// ---------------------------------------------------------------------------

/// `str::lines`: the lines of `s` without their `\n` or `\r\n` ending.
pub open spec fn text_lines(s: Seq<char>) -> Seq<Seq<char>> {
    let l = inclusive_lines(s);
    Seq::new(l.len(), |i: int| strip_cr(l[i]))
}

/// The lines of a text, as `str::lines` yields them.
pub fn lines_of(s: &str) -> (r: Vec<String>)
    ensures
        views(r@) == text_lines(s@),
{
    let v = chars_of(s);
    let parts = split_newline_chars(&v);
    let ghost pv = vviews(parts@);
    proof {
        crate::normalize::lemma_split_nonempty(v@);
    }
    let n = if v.len() == 0 {
        0
    } else if v[v.len() - 1] == '\n' {
        parts.len() - 1
    } else {
        parts.len()
    };
    let ghost l = inclusive_lines(v@);
    assert(n == l.len());
    let mut out: Vec<String> = Vec::new();
    let mut i: usize = 0;
    while i < n
        invariant
            i <= n,
            n == l.len(),
            n <= parts@.len(),
            l == inclusive_lines(v@),
            pv == vviews(parts@),
            forall|k: int| 0 <= k < n ==> #[trigger] l[k] == pv[k],
            views(out@) == Seq::new(i as nat, |k: int| strip_cr(l[k])),
        decreases n - i,
    {
        let p = &parts[i];
        assert(pv[i as int] == p@);
        let mut end = p.len();
        if end > 0 && p[end - 1] == '\r' {
            end -= 1;
        }
        let line = string_of_range(p, 0, end);
        assert(line@ =~= strip_cr(l[i as int]));
        let ghost before = views(out@);
        push_string(&mut out, line);
        i += 1;
        assert(views(out@) =~= Seq::new(i as nat, |k: int| strip_cr(l[k])));
    }
    out
}

/// The sitemap location a robots.txt line names: the value after the first
/// `:` of a `Sitemap:` line (key compared ignoring ASCII case), comments
/// after `#` dropped, trimmed, and not empty.
pub open spec fn robots_sitemap_value(line: Seq<char>) -> Option<Seq<char>> {
    let l = trim_spec(line.take(first_index(line, '#', 0)));
    let i = first_index(l, ':', 0);
    if i < l.len() && ascii_lower_seq(trim_spec(l.take(i))) == "sitemap"@ && trim_spec(l.skip(i + 1)).len() > 0 {
        Some(trim_spec(l.skip(i + 1)))
    } else {
        None
    }
}

fn robots_value_of(line: &str) -> (r: Option<String>)
    ensures
        opt_view(r) == robots_sitemap_value(line@),
{
    let v = chars_of(line);
    let h = first_index_exec(&v, '#');
    proof {
        lemma_first_index_bounds(v@, '#', 0);
    }
    let mut pre: Vec<char> = Vec::new();
    crate::text::extend_range(&mut pre, &v, 0, h);
    assert(pre@ =~= v@.take(h as int));
    let l = trim_chars(&pre);
    let i = first_index_exec(&l, ':');
    proof {
        lemma_first_index_bounds(l@, ':', 0);
    }
    if i >= l.len() {
        return None;
    }
    let mut key: Vec<char> = Vec::new();
    crate::text::extend_range(&mut key, &l, 0, i);
    assert(key@ =~= l@.take(i as int));
    let mut value: Vec<char> = Vec::new();
    crate::text::extend_range(&mut value, &l, i + 1, l.len());
    assert(value@ =~= l@.skip(i + 1));
    let k = ascii_lower_chars(&trim_chars(&key));
    let val = trim_chars(&value);
    let ks = string_of(&k);
    proof {
        reveal_strlit("sitemap");
    }
    if str_eq(ks.as_str(), "sitemap") && val.len() > 0 {
        Some(string_of(&val))
    } else {
        None
    }
}

/// The sitemap URLs that robots.txt lines name, resolved against `base`
/// (those that do not resolve are dropped).
pub open spec fn robots_urls(lines: Seq<Seq<char>>, base_href: Seq<char>) -> Seq<UrlParts>
    decreases lines.len(),
{
    if lines.len() == 0 {
        Seq::empty()
    } else {
        let prev = robots_urls(lines.drop_last(), base_href);
        match robots_sitemap_value(lines.last()) {
            Some(v) => match url_join_spec(base_href, v) {
                Some(u) => prev.push(u),
                None => prev,
            },
            None => prev,
        }
    }
}

pub open spec fn url_views(v: Seq<WebUrl>) -> Seq<UrlParts> {
    Seq::new(v.len(), |i: int| v[i]@)
}

/// The sitemaps a robots.txt body names, resolved against the site's URL.
pub fn sitemap_urls_from_robots(body: &[u8], base: &WebUrl) -> (r: Vec<WebUrl>)
    ensures
        url_views(r@) == robots_urls(text_lines(utf8_lossy_spec(body@)), base.href@),
{
    let text = utf8_lossy(body);
    let lines = lines_of(text.as_str());
    let ghost ls = views(lines@);
    let mut out: Vec<WebUrl> = Vec::new();
    let mut i: usize = 0;
    while i < lines.len()
        invariant
            i <= lines.len(),
            ls == views(lines@),
            url_views(out@) == robots_urls(ls.take(i as int), base.href@),
        decreases lines.len() - i,
    {
        assert(ls.take(i + 1).drop_last() =~= ls.take(i as int));
        assert(ls.take(i + 1).last() == lines@[i as int]@);
        let ghost before = url_views(out@);
        match robots_value_of(lines[i].as_str()) {
            Some(v) => match join_url(base, v.as_str()) {
                Some(u) => {
                    out.push(u);
                    assert(url_views(out@) =~= before.push(u@));
                },
                None => {},
            },
            None => {},
        }
        i += 1;
    }
    assert(ls.take(lines.len() as int) =~= ls);
    out
}

/// The canonical keys of the URLs a plain-text sitemap lists, one per
/// non-blank line, resolved against the sitemap's own URL.
pub open spec fn plain_text_urls(lines: Seq<Seq<char>>, base: UrlParts) -> Seq<Seq<char>>
    decreases lines.len(),
{
    if lines.len() == 0 {
        Seq::empty()
    } else {
        let prev = plain_text_urls(lines.drop_last(), base);
        let t = trim_spec(lines.last());
        if t.len() == 0 {
            prev
        } else {
            match normalized_url(t, base) {
                Some(url) => match url_parse_spec(url) {
                    Ok(p) => prev.push(canonical_key(p)),
                    Err(_) => prev,
                },
                None => prev,
            }
        }
    }
}

/// The URLs a plain-text sitemap lists, in canonical form.
pub fn plain_text_sitemap_urls(body: &[u8], response_url: &WebUrl) -> (r: Vec<String>)
    ensures
        views(r@) == plain_text_urls(text_lines(utf8_lossy_spec(body@)), response_url@),
{
    let text = utf8_lossy(body);
    let lines = lines_of(text.as_str());
    let ghost ls = views(lines@);
    let mut out: Vec<String> = Vec::new();
    let mut i: usize = 0;
    while i < lines.len()
        invariant
            i <= lines.len(),
            ls == views(lines@),
            views(out@) == plain_text_urls(ls.take(i as int), response_url@),
        decreases lines.len() - i,
    {
        assert(ls.take(i + 1).drop_last() =~= ls.take(i as int));
        assert(ls.take(i + 1).last() == lines@[i as int]@);
        let t = trim_str(lines[i].as_str());
        if !t.as_str().is_empty() {
            match normalize_url(t.as_str(), response_url) {
                Some(url) => match parse_url(url.as_str()) {
                    Ok(p) => {
                        push_string(&mut out, canonical_url(&p));
                    },
                    Err(_) => {},
                },
                None => {},
            }
        }
        i += 1;
    }
    assert(ls.take(lines.len() as int) =~= ls);
    out
}

/// `seeds` with `cand` added unless a seed has the same canonical key.
pub open spec fn add_seed(seeds: Seq<UrlParts>, cand: Option<UrlParts>) -> Seq<UrlParts> {
    match cand {
        Some(u) => if exists|i: int| 0 <= i < seeds.len() && #[trigger] canonical_key(seeds[i]) == canonical_key(u) {
            seeds
        } else {
            seeds.push(u)
        },
        None => seeds,
    }
}

/// The sitemap locations tried first: `sitemap.xml` and
/// `sitemap_index.xml` at the site's root, then the same names next to the
/// start URL when they differ.
pub open spec fn seed_urls(start: UrlParts) -> Seq<UrlParts> {
    let o = origin_of(start);
    let s0 = seq![
        or_same(url_join_spec(o.href, "sitemap.xml"@), o),
        or_same(url_join_spec(o.href, "sitemap_index.xml"@), o),
    ];
    add_seed(add_seed(s0, url_join_spec(start.href, "sitemap.xml"@)), url_join_spec(start.href, "sitemap_index.xml"@))
}

fn add_seed_exec(seeds: &mut Vec<WebUrl>, cand: Option<WebUrl>)
    ensures
        url_views(final(seeds)@) == add_seed(url_views(old(seeds)@), match cand {
            Some(u) => Some(u@),
            None => None,
        }),
{
    let ghost sv = url_views(seeds@);
    if let Some(u) = cand {
        let key = canonical_url(&u);
        let mut found = false;
        let mut i: usize = 0;
        while i < seeds.len() && !found
            invariant
                i <= seeds.len(),
                sv == url_views(seeds@),
                key@ == canonical_key(u@),
                found ==> exists|j: int| 0 <= j < sv.len() && #[trigger] canonical_key(sv[j]) == canonical_key(u@),
                !found ==> forall|k: int| 0 <= k < i ==> canonical_key(#[trigger] sv[k]) != canonical_key(u@),
            decreases seeds.len() - i,
        {
            let k = canonical_url(&seeds[i]);
            assert(sv[i as int] == seeds@[i as int]@);
            if str_eq(k.as_str(), key.as_str()) {
                assert(canonical_key(sv[i as int]) == canonical_key(u@));
                found = true;
            }
            i += 1;
        }
        if !found {
            seeds.push(u);
            assert(url_views(seeds@) =~= sv.push(u@));
        }
    }
}

/// Where to look for sitemaps for a crawl starting at `start`.
pub fn sitemap_seed_urls(start: &WebUrl) -> (r: Vec<WebUrl>)
    ensures
        url_views(r@) == seed_urls(start@),
{
    let origin = origin_url(start);
    let first = match join_url(&origin, "sitemap.xml") {
        Some(u) => u,
        None => origin.copied(),
    };
    let second = match join_url(&origin, "sitemap_index.xml") {
        Some(u) => u,
        None => origin.copied(),
    };
    let mut seeds: Vec<WebUrl> = Vec::new();
    seeds.push(first);
    seeds.push(second);
    assert(url_views(seeds@) =~= seq![
        or_same(url_join_spec(origin@.href, "sitemap.xml"@), origin@),
        or_same(url_join_spec(origin@.href, "sitemap_index.xml"@), origin@),
    ]);
    add_seed_exec(&mut seeds, join_url(start, "sitemap.xml"));
    add_seed_exec(&mut seeds, join_url(start, "sitemap_index.xml"));
    seeds
}

// ---------------------------------------------------------------------------
// Compressed sitemaps
// ---------------------------------------------------------------------------

/// What gzip decoding (`flate2::read::GzDecoder` read to the end) gives for
/// the bytes, `None` when they do not decode.
pub uninterp spec fn gunzip_spec(bytes: Seq<u8>) -> Option<Seq<u8>>;

/// `GzDecoder::new` over the bytes, read to the end with
/// `Read::read_to_end`. The contract names the result: a function of the
/// bytes alone.
#[verifier::external_body]
fn gz_decode(body: &[u8]) -> (r: Option<Vec<u8>>)
    ensures
        match r {
            Some(v) => gunzip_spec(body@) == Some(v@),
            None => gunzip_spec(body@) is None,
        },
{
    let mut decoded = Vec::new();
    match std::io::Read::read_to_end(&mut flate2::read::GzDecoder::new(body), &mut decoded) {
        Ok(_) => Some(decoded),
        Err(_) => None,
    }
}

/// Whether the bytes start with the gzip magic number.
pub open spec fn is_gzip(b: Seq<u8>) -> bool {
    b.len() >= 2 && b[0] == 0x1fu8 && b[1] == 0x8bu8
}

/// A sitemap body as text bytes: decoded when it is gzip-compressed,
/// unchanged otherwise; `None` when compressed data does not decode.
pub fn gunzip(body: Vec<u8>) -> (r: Option<Vec<u8>>)
    ensures
        match r {
            Some(v) => if is_gzip(body@) {
                gunzip_spec(body@) == Some(v@)
            } else {
                v@ == body@
            },
            None => is_gzip(body@) && gunzip_spec(body@) is None,
        },
{
    if !(body.len() >= 2 && body[0] == 0x1fu8 && body[1] == 0x8bu8) {
        return Some(body);
    }
    gz_decode(body.as_slice())
}

} // verus!
