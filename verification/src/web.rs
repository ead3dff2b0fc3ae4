//! Website ingestion without the network: crawl progress and scraped
//! section types, ignored domains, HTML detection, section assembly from
//! the elements of a page, and the chunk merging/splitting of page text.
use vstd::prelude::*;
use crate::text::{
    chars_of, string_of, str_eq, ascii_lower_chars, ascii_lower_seq, ascii_lower, contains_chars,
    contains_spec, ends_with_spec, trim_spec, is_ws,
};
use crate::seqtext::{join, join_strings, views, push_string};
use vstd::string::StringSliceAdditionalSpecFns;

verus! {

/// Live crawl progress pushed to the UI while a crawl runs.
#[derive(Debug, Clone)]
pub struct CrawlProgressEvent {
    /// URL being fetched, or the URL just found or finished.
    pub url: String,
    /// `fetching`, `found` or `done`.
    pub phase: String,
    /// Pages crawled so far.
    pub found_count: usize,
}

/// A code sample found in a `pre` block.
#[derive(Debug, Clone)]
pub struct CodeBlock {
    pub raw: String,
    pub language: String,
}

/// A link found inside a section.
#[derive(Debug, Clone)]
pub struct Link {
    pub href: String,
    pub anchor_text: String,
}

/// One section of a page: its heading path (`h1 > h2`), its text, and the
/// code samples and links found in it.
#[derive(Debug, Clone, Default)]
pub struct WebSection {
    pub heading_path: Vec<String>,
    pub content: String,
    pub code_blocks: Vec<CodeBlock>,
    pub links: Vec<Link>,
}

// ---------------------------------------------------------------------------
// Ignored domains
// ---------------------------------------------------------------------------

/// Social, analytics, support and app-store domains the crawler skips.
pub open spec fn ignored_domains() -> Seq<Seq<char>> {
    seq![
        "facebook.com"@,
        "fb.com"@,
        "instagram.com"@,
        "threads.net"@,
        "twitter.com"@,
        "x.com"@,
        "t.co"@,
        "linkedin.com"@,
        "youtube.com"@,
        "youtu.be"@,
        "tiktok.com"@,
        "reddit.com"@,
        "redd.it"@,
        "snapchat.com"@,
        "pinterest.com"@,
        "pin.it"@,
        "tumblr.com"@,
        "twitch.tv"@,
        "discord.com"@,
        "discord.gg"@,
        "telegram.org"@,
        "t.me"@,
        "whatsapp.com"@,
        "wa.me"@,
        "weibo.com"@,
        "vk.com"@,
        "mail.google.com"@,
        "gmail.com"@,
        "outlook.live.com"@,
        "outlook.com"@,
        "mail.yahoo.com"@,
        "protonmail.com"@,
        "proton.me"@,
        "zendesk.com"@,
        "freshdesk.com"@,
        "freshservice.com"@,
        "helpscout.net"@,
        "helpscoutdocs.com"@,
        "intercom.com"@,
        "intercom.io"@,
        "statuspage.io"@,
        "atlassian.net"@,
        "google-analytics.com"@,
        "googletagmanager.com"@,
        "doubleclick.net"@,
        "facebook.net"@,
        "hotjar.com"@,
        "clarity.ms"@,
        "apps.apple.com"@,
        "play.google.com"@,
        "addthis.com"@,
        "sharethis.com"@,
        "disqus.com"@,
    ]
}

/// A character lower-cased as far as matching an ASCII domain can tell:
/// `A`-`Z` and the Kelvin sign (which lower-cases to `k`) are the only
/// characters whose lower case is a single ASCII character other than
/// themselves; every other character either stays put or lower-cases to
/// text holding a non-ASCII character, which no domain matches either way.
pub open spec fn fold_char(c: char) -> char {
    if 'A' <= c && c <= 'Z' {
        ascii_lower(c)
    } else if c == '\u{212A}' {
        'k'
    } else {
        c
    }
}

pub open spec fn fold_seq(s: Seq<char>) -> Seq<char> {
    Seq::new(s.len(), |i: int| fold_char(s[i]))
}

/// The host is the domain or one of its subdomains.
pub open spec fn host_matches(h: Seq<char>, d: Seq<char>) -> bool {
    h == d || ends_with_spec(h, seq!['.'] + d)
}

/// Whether a host belongs to an ignored domain, compared case-insensitively.
pub open spec fn ignored_host(host: Seq<char>) -> bool {
    exists|i: int| 0 <= i < ignored_domains().len() && host_matches(fold_seq(host), #[trigger] ignored_domains()[i])
}

fn fold_chars(v: &Vec<char>) -> (r: Vec<char>)
    ensures
        r@ == fold_seq(v@),
{
    let mut r: Vec<char> = Vec::new();
    let mut i: usize = 0;
    while i < v.len()
        invariant
            i <= v.len(),
            r@ == fold_seq(v@).take(i as int),
        decreases v.len() - i,
    {
        let c = v[i];
        let f = if 'A' <= c && c <= 'Z' {
            crate::text::to_ascii_lower_char(c)
        } else if c == '\u{212A}' {
            'k'
        } else {
            c
        };
        r.push(f);
        i += 1;
        assert(r@ =~= fold_seq(v@).take(i as int));
    }
    r
}

fn domain_match(h: &Vec<char>, d: &str) -> (r: bool)
    ensures
        r == host_matches(h@, d@),
{
    let dv = chars_of(d);
    let mut dotted: Vec<char> = Vec::new();
    dotted.push('.');
    crate::text::extend_all(&mut dotted, &dv);
    assert(dotted@ =~= seq!['.'] + d@);
    crate::text::chars_eq(h, &dv) || crate::text::ends_with_chars(h, &dotted)
}

/// Whether `host` is one of the ignored domains or a subdomain of one.
pub fn is_ignored_domain(host: &str) -> (r: bool)
    ensures
        r == ignored_host(host@),
{
    let h = fold_chars(&chars_of(host));
    let r = domain_match(&h, "facebook.com")
        || domain_match(&h, "fb.com")
        || domain_match(&h, "instagram.com")
        || domain_match(&h, "threads.net")
        || domain_match(&h, "twitter.com")
        || domain_match(&h, "x.com")
        || domain_match(&h, "t.co")
        || domain_match(&h, "linkedin.com")
        || domain_match(&h, "youtube.com")
        || domain_match(&h, "youtu.be")
        || domain_match(&h, "tiktok.com")
        || domain_match(&h, "reddit.com")
        || domain_match(&h, "redd.it")
        || domain_match(&h, "snapchat.com")
        || domain_match(&h, "pinterest.com")
        || domain_match(&h, "pin.it")
        || domain_match(&h, "tumblr.com")
        || domain_match(&h, "twitch.tv")
        || domain_match(&h, "discord.com")
        || domain_match(&h, "discord.gg")
        || domain_match(&h, "telegram.org")
        || domain_match(&h, "t.me")
        || domain_match(&h, "whatsapp.com")
        || domain_match(&h, "wa.me")
        || domain_match(&h, "weibo.com")
        || domain_match(&h, "vk.com")
        || domain_match(&h, "mail.google.com")
        || domain_match(&h, "gmail.com")
        || domain_match(&h, "outlook.live.com")
        || domain_match(&h, "outlook.com")
        || domain_match(&h, "mail.yahoo.com")
        || domain_match(&h, "protonmail.com")
        || domain_match(&h, "proton.me")
        || domain_match(&h, "zendesk.com")
        || domain_match(&h, "freshdesk.com")
        || domain_match(&h, "freshservice.com")
        || domain_match(&h, "helpscout.net")
        || domain_match(&h, "helpscoutdocs.com")
        || domain_match(&h, "intercom.com")
        || domain_match(&h, "intercom.io")
        || domain_match(&h, "statuspage.io")
        || domain_match(&h, "atlassian.net")
        || domain_match(&h, "google-analytics.com")
        || domain_match(&h, "googletagmanager.com")
        || domain_match(&h, "doubleclick.net")
        || domain_match(&h, "facebook.net")
        || domain_match(&h, "hotjar.com")
        || domain_match(&h, "clarity.ms")
        || domain_match(&h, "apps.apple.com")
        || domain_match(&h, "play.google.com")
        || domain_match(&h, "addthis.com")
        || domain_match(&h, "sharethis.com")
        || domain_match(&h, "disqus.com");
    proof {
        let ds = ignored_domains();
        if r {
            assert(exists|i: int| 0 <= i < ds.len() && host_matches(h@, #[trigger] ds[i])) by {
                if host_matches(h@, "facebook.com"@) { assert(ds[0] == "facebook.com"@); }
                if host_matches(h@, "fb.com"@) { assert(ds[1] == "fb.com"@); }
                if host_matches(h@, "instagram.com"@) { assert(ds[2] == "instagram.com"@); }
                if host_matches(h@, "threads.net"@) { assert(ds[3] == "threads.net"@); }
                if host_matches(h@, "twitter.com"@) { assert(ds[4] == "twitter.com"@); }
                if host_matches(h@, "x.com"@) { assert(ds[5] == "x.com"@); }
                if host_matches(h@, "t.co"@) { assert(ds[6] == "t.co"@); }
                if host_matches(h@, "linkedin.com"@) { assert(ds[7] == "linkedin.com"@); }
                if host_matches(h@, "youtube.com"@) { assert(ds[8] == "youtube.com"@); }
                if host_matches(h@, "youtu.be"@) { assert(ds[9] == "youtu.be"@); }
                if host_matches(h@, "tiktok.com"@) { assert(ds[10] == "tiktok.com"@); }
                if host_matches(h@, "reddit.com"@) { assert(ds[11] == "reddit.com"@); }
                if host_matches(h@, "redd.it"@) { assert(ds[12] == "redd.it"@); }
                if host_matches(h@, "snapchat.com"@) { assert(ds[13] == "snapchat.com"@); }
                if host_matches(h@, "pinterest.com"@) { assert(ds[14] == "pinterest.com"@); }
                if host_matches(h@, "pin.it"@) { assert(ds[15] == "pin.it"@); }
                if host_matches(h@, "tumblr.com"@) { assert(ds[16] == "tumblr.com"@); }
                if host_matches(h@, "twitch.tv"@) { assert(ds[17] == "twitch.tv"@); }
                if host_matches(h@, "discord.com"@) { assert(ds[18] == "discord.com"@); }
                if host_matches(h@, "discord.gg"@) { assert(ds[19] == "discord.gg"@); }
                if host_matches(h@, "telegram.org"@) { assert(ds[20] == "telegram.org"@); }
                if host_matches(h@, "t.me"@) { assert(ds[21] == "t.me"@); }
                if host_matches(h@, "whatsapp.com"@) { assert(ds[22] == "whatsapp.com"@); }
                if host_matches(h@, "wa.me"@) { assert(ds[23] == "wa.me"@); }
                if host_matches(h@, "weibo.com"@) { assert(ds[24] == "weibo.com"@); }
                if host_matches(h@, "vk.com"@) { assert(ds[25] == "vk.com"@); }
                if host_matches(h@, "mail.google.com"@) { assert(ds[26] == "mail.google.com"@); }
                if host_matches(h@, "gmail.com"@) { assert(ds[27] == "gmail.com"@); }
                if host_matches(h@, "outlook.live.com"@) { assert(ds[28] == "outlook.live.com"@); }
                if host_matches(h@, "outlook.com"@) { assert(ds[29] == "outlook.com"@); }
                if host_matches(h@, "mail.yahoo.com"@) { assert(ds[30] == "mail.yahoo.com"@); }
                if host_matches(h@, "protonmail.com"@) { assert(ds[31] == "protonmail.com"@); }
                if host_matches(h@, "proton.me"@) { assert(ds[32] == "proton.me"@); }
                if host_matches(h@, "zendesk.com"@) { assert(ds[33] == "zendesk.com"@); }
                if host_matches(h@, "freshdesk.com"@) { assert(ds[34] == "freshdesk.com"@); }
                if host_matches(h@, "freshservice.com"@) { assert(ds[35] == "freshservice.com"@); }
                if host_matches(h@, "helpscout.net"@) { assert(ds[36] == "helpscout.net"@); }
                if host_matches(h@, "helpscoutdocs.com"@) { assert(ds[37] == "helpscoutdocs.com"@); }
                if host_matches(h@, "intercom.com"@) { assert(ds[38] == "intercom.com"@); }
                if host_matches(h@, "intercom.io"@) { assert(ds[39] == "intercom.io"@); }
                if host_matches(h@, "statuspage.io"@) { assert(ds[40] == "statuspage.io"@); }
                if host_matches(h@, "atlassian.net"@) { assert(ds[41] == "atlassian.net"@); }
                if host_matches(h@, "google-analytics.com"@) { assert(ds[42] == "google-analytics.com"@); }
                if host_matches(h@, "googletagmanager.com"@) { assert(ds[43] == "googletagmanager.com"@); }
                if host_matches(h@, "doubleclick.net"@) { assert(ds[44] == "doubleclick.net"@); }
                if host_matches(h@, "facebook.net"@) { assert(ds[45] == "facebook.net"@); }
                if host_matches(h@, "hotjar.com"@) { assert(ds[46] == "hotjar.com"@); }
                if host_matches(h@, "clarity.ms"@) { assert(ds[47] == "clarity.ms"@); }
                if host_matches(h@, "apps.apple.com"@) { assert(ds[48] == "apps.apple.com"@); }
                if host_matches(h@, "play.google.com"@) { assert(ds[49] == "play.google.com"@); }
                if host_matches(h@, "addthis.com"@) { assert(ds[50] == "addthis.com"@); }
                if host_matches(h@, "sharethis.com"@) { assert(ds[51] == "sharethis.com"@); }
                if host_matches(h@, "disqus.com"@) { assert(ds[52] == "disqus.com"@); }
            }
        } else {
            assert forall|i: int| 0 <= i < ds.len() implies !host_matches(h@, #[trigger] ds[i]) by {
                assert(ds[0] == "facebook.com"@);
                assert(ds[1] == "fb.com"@);
                assert(ds[2] == "instagram.com"@);
                assert(ds[3] == "threads.net"@);
                assert(ds[4] == "twitter.com"@);
                assert(ds[5] == "x.com"@);
                assert(ds[6] == "t.co"@);
                assert(ds[7] == "linkedin.com"@);
                assert(ds[8] == "youtube.com"@);
                assert(ds[9] == "youtu.be"@);
                assert(ds[10] == "tiktok.com"@);
                assert(ds[11] == "reddit.com"@);
                assert(ds[12] == "redd.it"@);
                assert(ds[13] == "snapchat.com"@);
                assert(ds[14] == "pinterest.com"@);
                assert(ds[15] == "pin.it"@);
                assert(ds[16] == "tumblr.com"@);
                assert(ds[17] == "twitch.tv"@);
                assert(ds[18] == "discord.com"@);
                assert(ds[19] == "discord.gg"@);
                assert(ds[20] == "telegram.org"@);
                assert(ds[21] == "t.me"@);
                assert(ds[22] == "whatsapp.com"@);
                assert(ds[23] == "wa.me"@);
                assert(ds[24] == "weibo.com"@);
                assert(ds[25] == "vk.com"@);
                assert(ds[26] == "mail.google.com"@);
                assert(ds[27] == "gmail.com"@);
                assert(ds[28] == "outlook.live.com"@);
                assert(ds[29] == "outlook.com"@);
                assert(ds[30] == "mail.yahoo.com"@);
                assert(ds[31] == "protonmail.com"@);
                assert(ds[32] == "proton.me"@);
                assert(ds[33] == "zendesk.com"@);
                assert(ds[34] == "freshdesk.com"@);
                assert(ds[35] == "freshservice.com"@);
                assert(ds[36] == "helpscout.net"@);
                assert(ds[37] == "helpscoutdocs.com"@);
                assert(ds[38] == "intercom.com"@);
                assert(ds[39] == "intercom.io"@);
                assert(ds[40] == "statuspage.io"@);
                assert(ds[41] == "atlassian.net"@);
                assert(ds[42] == "google-analytics.com"@);
                assert(ds[43] == "googletagmanager.com"@);
                assert(ds[44] == "doubleclick.net"@);
                assert(ds[45] == "facebook.net"@);
                assert(ds[46] == "hotjar.com"@);
                assert(ds[47] == "clarity.ms"@);
                assert(ds[48] == "apps.apple.com"@);
                assert(ds[49] == "play.google.com"@);
                assert(ds[50] == "addthis.com"@);
                assert(ds[51] == "sharethis.com"@);
                assert(ds[52] == "disqus.com"@);
            }
        }
    }
    r
}

// ---------------------------------------------------------------------------
// Merging small chunks
// ---------------------------------------------------------------------------

/// Length of a text in UTF-8 bytes.
pub open spec fn utf8_len(s: Seq<char>) -> nat {
    vstd::utf8::encode_utf8(s).len()
}

/// The merged chunks and the pending buffer after the given chunks: each
/// chunk joins the buffer, and the buffer is emitted (newline-joined) as soon
/// as it reaches `min_bytes` bytes.
pub open spec fn merge_state(chunks: Seq<Seq<char>>, min_bytes: int) -> (Seq<Seq<char>>, Seq<Seq<char>>)
    decreases chunks.len(),
{
    if chunks.len() == 0 {
        (Seq::empty(), Seq::empty())
    } else {
        let prev = merge_state(chunks.drop_last(), min_bytes);
        let buf = prev.1.push(chunks.last());
        let combined = join(buf, "\n"@);
        if utf8_len(combined) >= min_bytes {
            (prev.0.push(combined), Seq::empty())
        } else {
            (prev.0, buf)
        }
    }
}

/// What remains after all chunks: the merged chunks, plus the leftover
/// buffer as a last chunk when it is not empty.
pub open spec fn flush(st: (Seq<Seq<char>>, Seq<Seq<char>>)) -> Seq<Seq<char>> {
    if st.1.len() > 0 {
        st.0.push(join(st.1, "\n"@))
    } else {
        st.0
    }
}

/// What `merge_small_chunks` returns.
pub open spec fn merged_chunks(chunks: Seq<Seq<char>>, min_tokens: int) -> Seq<Seq<char>> {
    flush(merge_state(chunks, min_tokens * 4))
}

/// Merges consecutive chunks (newline-joined) until each merged chunk
/// holds at least `min_tokens * 4` bytes; the leftover forms a last chunk.
pub fn merge_small_chunks(chunks: Vec<String>, min_tokens: usize) -> (r: Vec<String>)
    requires
        chunks.len() > 0 ==> min_tokens * 4 <= usize::MAX,
    ensures
        views(r@) == merged_chunks(views(chunks@), min_tokens as int),
{
    if chunks.len() == 0 {
        let r: Vec<String> = Vec::new();
        assert(views(r@) =~= merged_chunks(views(chunks@), min_tokens as int));
        return r;
    }
    let threshold: usize = min_tokens * 4;
    let mut merged: Vec<String> = Vec::new();
    let mut buffer: Vec<String> = Vec::new();
    let mut i: usize = 0;
    while i < chunks.len()
        invariant
            i <= chunks.len(),
            threshold == min_tokens * 4,
            views(merged@) == merge_state(views(chunks@).take(i as int), threshold as int).0,
            views(buffer@) == merge_state(views(chunks@).take(i as int), threshold as int).1,
        decreases chunks.len() - i,
    {
        let ghost pre = views(chunks@).take(i as int);
        let ghost st = merge_state(pre, threshold as int);
        push_string(&mut buffer, chunks[i].clone());
        let combined = join_strings(&buffer, "\n");
        i += 1;
        let ghost cur = views(chunks@).take(i as int);
        assert(cur.drop_last() =~= pre);
        assert(cur.last() == chunks@[i - 1]@);
        assert(views(buffer@) == st.1.push(cur.last()));
        let cs = combined.as_str();
        let blen = cs.as_bytes().len();
        assert(cs.spec_bytes() == vstd::utf8::encode_utf8(cs@));
        assert(blen == utf8_len(combined@));
        if blen >= threshold {
            push_string(&mut merged, combined);
            buffer = Vec::new();
            assert(views(buffer@) =~= Seq::<Seq<char>>::empty());
        }
        assert(merge_state(cur, threshold as int) == if utf8_len(join(st.1.push(cur.last()), "\n"@)) >= threshold {
            (st.0.push(join(st.1.push(cur.last()), "\n"@)), Seq::<Seq<char>>::empty())
        } else {
            (st.0, st.1.push(cur.last()))
        });
    }
    assert(views(chunks@).take(chunks.len() as int) =~= views(chunks@));
    if buffer.len() > 0 {
        let last = join_strings(&buffer, "\n");
        push_string(&mut merged, last);
    }
    merged
}

proof fn lemma_join_push(s: Seq<Seq<char>>, x: Seq<char>, sep: Seq<char>)
    ensures
        join(s.push(x), sep) == if s.len() == 0 {
            x
        } else {
            join(s, sep) + sep + x
        },
{
    assert(s.push(x).drop_last() =~= s);
}

proof fn lemma_merge_state_join(chunks: Seq<Seq<char>>, min_bytes: int)
    ensures
        chunks.len() > 0 ==> merge_state(chunks, min_bytes).0.len() > 0 || merge_state(chunks, min_bytes).1.len() > 0,
        join(flush(merge_state(chunks, min_bytes)), "\n"@) == join(chunks, "\n"@),
        forall|k: int| 0 <= k < merge_state(chunks, min_bytes).0.len() ==> utf8_len(#[trigger] merge_state(chunks, min_bytes).0[k]) >= min_bytes,
    decreases chunks.len(),
{
    let sep = "\n"@;
    if chunks.len() > 0 {
        let rest = chunks.drop_last();
        let c = chunks.last();
        lemma_merge_state_join(rest, min_bytes);
        let st = merge_state(rest, min_bytes);
        let buf = st.1.push(c);
        lemma_join_push(st.1, c, sep);
        lemma_join_push(chunks.drop_last(), c, sep);
        assert(chunks =~= rest.push(c));
        assert(flush(merge_state(chunks, min_bytes)) == st.0.push(join(buf, sep)));
        lemma_join_push(st.0, join(buf, sep), sep);
        if st.1.len() > 0 {
            lemma_join_push(st.0, join(st.1, sep), sep);
            assert(join(flush(st), sep) == join(st.0.push(join(st.1, sep)), sep));
        } else {
            assert(join(flush(st), sep) == join(st.0, sep));
            if st.0.len() == 0 {
                assert(rest.len() == 0);
                assert(chunks =~= seq![c]);
            }
        }
        if utf8_len(join(buf, sep)) >= min_bytes {
            let m = merge_state(chunks, min_bytes).0;
            assert forall|k: int| 0 <= k < m.len() implies utf8_len(#[trigger] m[k]) >= min_bytes by {
                if k < st.0.len() {
                    assert(m[k] == st.0[k]);
                }
            }
        }
    }
}

/// The chunks from index `a` up to `b`, joined by newlines.
pub open spec fn run_join(chunks: Seq<Seq<char>>, a: int, b: int) -> Seq<char> {
    join(chunks.subrange(a, b), "\n"@)
}

/// Cut points splitting the chunks into runs greedily: they rise from 0 to
/// the number of chunks; no proper prefix of a run reaches `min_bytes`; and
/// every run but the last does.
pub open spec fn greedy_cuts(chunks: Seq<Seq<char>>, min_bytes: int, cuts: Seq<int>) -> bool {
    &&& cuts.len() >= 1
    &&& cuts[0] == 0
    &&& cuts.last() == chunks.len()
    &&& forall|k: int| 0 <= k < cuts.len() - 1 ==> #[trigger] cuts[k] < cuts[k + 1]
    &&& forall|k: int, j: int| 0 <= k < cuts.len() - 1 && cuts[k] < j < cuts[k + 1] ==> utf8_len(#[trigger] run_join(chunks, cuts[k], j)) < min_bytes
    &&& forall|k: int| 0 <= k < cuts.len() - 2 ==> utf8_len(#[trigger] run_join(chunks, cuts[k], cuts[k + 1])) >= min_bytes
}

pub open spec fn runs_of(chunks: Seq<Seq<char>>, cuts: Seq<int>) -> Seq<Seq<char>> {
    Seq::new((cuts.len() - 1) as nat, |k: int| run_join(chunks, cuts[k], cuts[k + 1]))
}

/// The state after the first `n` chunks, described by cut points: the
/// emitted chunks are the runs between them, the buffer holds the chunks
/// from the last cut on, and no prefix of the buffer reaches `min_bytes`.
proof fn lemma_state_cuts(chunks: Seq<Seq<char>>, min_bytes: int, n: int) -> (cs: Seq<int>)
    requires
        0 <= n <= chunks.len(),
    ensures
        cs.len() >= 1,
        cs[0] == 0,
        0 <= cs.last() <= n,
        forall|k: int| 0 <= k < cs.len() - 1 ==> #[trigger] cs[k] < cs[k + 1],
        forall|k: int, j: int| 0 <= k < cs.len() - 1 && cs[k] < j < cs[k + 1] ==> utf8_len(#[trigger] run_join(chunks, cs[k], j)) < min_bytes,
        forall|k: int| 0 <= k < cs.len() - 1 ==> utf8_len(#[trigger] run_join(chunks, cs[k], cs[k + 1])) >= min_bytes,
        merge_state(chunks.take(n), min_bytes).0 == runs_of(chunks, cs),
        merge_state(chunks.take(n), min_bytes).1 == chunks.subrange(cs.last(), n),
        forall|j: int| cs.last() < j <= n ==> utf8_len(#[trigger] run_join(chunks, cs.last(), j)) < min_bytes,
    decreases n,
{
    if n == 0 {
        let cs = seq![0int];
        assert(chunks.take(0) =~= Seq::<Seq<char>>::empty());
        assert(runs_of(chunks, cs) =~= Seq::<Seq<char>>::empty());
        assert(chunks.subrange(0, 0) =~= Seq::<Seq<char>>::empty());
        cs
    } else {
        let prev = lemma_state_cuts(chunks, min_bytes, n - 1);
        let b = prev.last();
        assert(chunks.take(n).drop_last() =~= chunks.take(n - 1));
        assert(chunks.take(n).last() == chunks[n - 1]);
        let st = merge_state(chunks.take(n - 1), min_bytes);
        let buf = st.1.push(chunks[n - 1]);
        assert(buf =~= chunks.subrange(b, n));
        assert(join(buf, "\n"@) == run_join(chunks, b, n));
        if utf8_len(run_join(chunks, b, n)) >= min_bytes {
            let cs = prev.push(n);
            assert(merge_state(chunks.take(n), min_bytes).0 == st.0.push(run_join(chunks, b, n)));
            assert(runs_of(chunks, cs) =~= runs_of(chunks, prev).push(run_join(chunks, b, n))) by {
                assert forall|k: int| 0 <= k < cs.len() - 1 implies runs_of(chunks, cs)[k] == runs_of(chunks, prev).push(run_join(chunks, b, n))[k] by {
                    if k < prev.len() - 1 {
                        assert(cs[k] == prev[k] && cs[k + 1] == prev[k + 1]);
                    } else {
                        assert(cs[k] == b && cs[k + 1] == n);
                    }
                }
            }
            assert(chunks.subrange(n, n) =~= Seq::<Seq<char>>::empty());
            assert forall|k: int| 0 <= k < cs.len() - 1 implies #[trigger] cs[k] < cs[k + 1] by {
                if k < prev.len() - 1 {
                    assert(cs[k] == prev[k] && cs[k + 1] == prev[k + 1]);
                }
            }
            assert forall|k: int, j: int| 0 <= k < cs.len() - 1 && cs[k] < j < cs[k + 1] implies utf8_len(#[trigger] run_join(chunks, cs[k], j)) < min_bytes by {
                if k < prev.len() - 1 {
                    assert(cs[k] == prev[k] && cs[k + 1] == prev[k + 1]);
                } else {
                    assert(cs[k] == b);
                }
            }
            assert forall|k: int| 0 <= k < cs.len() - 1 implies utf8_len(#[trigger] run_join(chunks, cs[k], cs[k + 1])) >= min_bytes by {
                if k < prev.len() - 1 {
                    assert(cs[k] == prev[k] && cs[k + 1] == prev[k + 1]);
                }
            }
            cs
        } else {
            assert(merge_state(chunks.take(n), min_bytes) == (st.0, buf));
            prev
        }
    }
}

/// Law: merging cuts the chunks greedily into consecutive runs joined by
/// newlines: each run but the last is the shortest run from its start whose
/// text reaches `min_tokens * 4` bytes, and the last is the leftover.
pub proof fn lemma_merge_small_chunks_greedy(chunks: Seq<Seq<char>>, min_tokens: int)
    ensures
        exists|cuts: Seq<int>| greedy_cuts(chunks, min_tokens * 4, cuts) && merged_chunks(chunks, min_tokens) == runs_of(chunks, cuts),
{
    let t = min_tokens * 4;
    let n = chunks.len() as int;
    let cs = lemma_state_cuts(chunks, t, n);
    assert(chunks.take(n) =~= chunks);
    let st = merge_state(chunks, t);
    let b = cs.last();
    if st.1.len() > 0 {
        let cuts = cs.push(n);
        assert(b < n) by {
            if b == n {
                assert(chunks.subrange(b, n).len() == 0);
            }
        }
        assert(join(st.1, "\n"@) == run_join(chunks, b, n));
        assert(runs_of(chunks, cuts) =~= runs_of(chunks, cs).push(run_join(chunks, b, n))) by {
            assert forall|k: int| 0 <= k < cuts.len() - 1 implies runs_of(chunks, cuts)[k] == runs_of(chunks, cs).push(run_join(chunks, b, n))[k] by {
                if k < cs.len() - 1 {
                    assert(cuts[k] == cs[k] && cuts[k + 1] == cs[k + 1]);
                } else {
                    assert(cuts[k] == b && cuts[k + 1] == n);
                }
            }
        }
        assert forall|k: int| 0 <= k < cuts.len() - 1 implies #[trigger] cuts[k] < cuts[k + 1] by {
            if k < cs.len() - 1 {
                assert(cuts[k] == cs[k] && cuts[k + 1] == cs[k + 1]);
            }
        }
        assert forall|k: int, j: int| 0 <= k < cuts.len() - 1 && cuts[k] < j < cuts[k + 1] implies utf8_len(#[trigger] run_join(chunks, cuts[k], j)) < t by {
            if k < cs.len() - 1 {
                assert(cuts[k] == cs[k] && cuts[k + 1] == cs[k + 1]);
            } else {
                assert(cuts[k] == b);
            }
        }
        assert forall|k: int| 0 <= k < cuts.len() - 2 implies utf8_len(#[trigger] run_join(chunks, cuts[k], cuts[k + 1])) >= t by {
            assert(cuts[k] == cs[k] && cuts[k + 1] == cs[k + 1]);
        }
        assert(greedy_cuts(chunks, t, cuts));
    } else {
        assert(b == n) by {
            if b < n {
                assert(chunks.subrange(b, n).len() > 0);
            }
        }
        assert(greedy_cuts(chunks, t, cs));
    }
}

/// Merging keeps the text: the merged chunks joined by newlines are the
/// input chunks joined by newlines, every merged chunk but the last
/// reaches `min_tokens * 4` bytes, and there are none exactly when there
/// were no chunks.
pub proof fn lemma_merge_small_chunks_laws(chunks: Seq<Seq<char>>, min_tokens: int)
    ensures
        join(merged_chunks(chunks, min_tokens), "\n"@) == join(chunks, "\n"@),
        forall|k: int| 0 <= k < merged_chunks(chunks, min_tokens).len() - 1 ==> utf8_len(
            #[trigger] merged_chunks(chunks, min_tokens)[k],
        ) >= min_tokens * 4,
        (merged_chunks(chunks, min_tokens).len() == 0) <==> (chunks.len() == 0),
{
    lemma_merge_state_join(chunks, min_tokens * 4);
    let st = merge_state(chunks, min_tokens * 4);
    let m = merged_chunks(chunks, min_tokens);
    assert forall|k: int| 0 <= k < m.len() - 1 implies utf8_len(#[trigger] m[k]) >= min_tokens * 4 by {
        assert(m[k] == st.0[k]);
    }
}

} // verus!
