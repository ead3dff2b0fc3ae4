//! Tokens, terms and token ids for the sparse (BM25) embedder: the text is
//! cut into lower-cased word tokens, stop words dropped and tokens stemmed
//! (when stemming is on), and each term hashed to its sparse index.
use vstd::prelude::*;
use vstd::string::StringSliceAdditionalSpecFns;
use crate::text::{chars_of, string_of, str_eq, is_ws};
use crate::scrape::{words, split_words};
use crate::seqtext::{views, vviews, push_string};

verus! {

/// Longer tokens are dropped.
pub const TOKEN_MAX_LENGTH: usize = 40;

/// What `char::is_alphanumeric` returns for a character.
pub uninterp spec fn alnum_spec(c: char) -> bool;

/// `char::is_alphanumeric`. The contract names the result; it is a
/// function of the character alone.
#[verifier::external_body]
fn is_alphanumeric(c: char) -> (r: bool)
    ensures
        r == alnum_spec(c),
{
    c.is_alphanumeric()
}

/// What `char::to_lowercase` yields for a character.
pub uninterp spec fn char_lower_spec(c: char) -> Seq<char>;

/// `char::to_lowercase`, collected. The contract names the result; it is
/// a function of the character alone.
#[verifier::external_body]
fn char_to_lowercase(c: char) -> (r: Vec<char>)
    ensures
        r@ == char_lower_spec(c),
{
    c.to_lowercase().collect()
}

/// The text tokens are cut from: word characters (alphanumeric or `_`)
/// lower-cased, every other character a space.
pub open spec fn token_text(s: Seq<char>) -> Seq<char>
    decreases s.len(),
{
    if s.len() == 0 {
        Seq::empty()
    } else {
        token_text(s.drop_last()) + if alnum_spec(s.last()) || s.last() == '_' {
            char_lower_spec(s.last())
        } else {
            seq![' ']
        }
    }
}

/// The simple tokens of a text: the runs of `token_text` between whitespace.
pub open spec fn simple_tokens(s: Seq<char>) -> Seq<Seq<char>> {
    words(token_text(s))
}

/// Lower-cases word characters, turns every other character into a space,
/// and splits on whitespace.
pub fn tokenize_simple(text: &str) -> (r: Vec<String>)
    ensures
        views(r@) == simple_tokens(text@),
{
    let v = chars_of(text);
    let mut buf: Vec<char> = Vec::new();
    let mut i: usize = 0;
    while i < v.len()
        invariant
            i <= v.len(),
            buf@ == token_text(v@.take(i as int)),
        decreases v.len() - i,
    {
        let ch = v[i];
        assert(v@.take(i + 1).drop_last() =~= v@.take(i as int));
        if is_alphanumeric(ch) || ch == '_' {
            let low = char_to_lowercase(ch);
            crate::text::extend_all(&mut buf, &low);
        } else {
            buf.push(' ');
        }
        i += 1;
    }
    assert(v@.take(v.len() as int) =~= v@);
    let ws = split_words(&buf);
    let mut r: Vec<String> = Vec::new();
    let mut k: usize = 0;
    while k < ws.len()
        invariant
            k <= ws.len(),
            views(r@) == vviews(ws@).take(k as int),
        decreases ws.len() - k,
    {
        push_string(&mut r, string_of(&ws[k]));
        k += 1;
        assert(vviews(ws@).take(k as int) =~= vviews(ws@).take(k - 1).push(ws@[k - 1]@));
    }
    assert(vviews(ws@).take(ws.len() as int) =~= vviews(ws@));
    r
}

// ---------------------------------------------------------------------------
// Token ids
// ---------------------------------------------------------------------------

/// What `murmur3::murmur3_32` returns for the bytes and seed (`None` when
/// reading fails).
pub uninterp spec fn murmur3_32_spec(bytes: Seq<u8>, seed: u32) -> Option<u32>;

/// `murmur3::murmur3_32` over an in-memory cursor. The contract names the
/// result; it is a function of the bytes and the seed.
#[verifier::external_body]
fn murmur3_32_of(bytes: &[u8], seed: u32) -> (r: Option<u32>)
    ensures
        r == murmur3_32_spec(bytes@, seed),
{
    murmur3::murmur3_32(&mut std::io::Cursor::new(bytes), seed).ok()
}

/// The absolute value of a 32-bit hash read as a signed integer.
pub open spec fn abs_as_signed(h: u32) -> u32 {
    if h < 0x8000_0000u32 {
        h
    } else {
        (0x1_0000_0000int - h) as u32
    }
}

/// The sparse index of a term: its MurmurHash3 (x86, 32-bit, seed 0) read
/// as a signed integer, made non-negative; 0 when hashing fails.
pub open spec fn token_id_of(t: Seq<char>) -> u32 {
    match murmur3_32_spec(vstd::utf8::encode_utf8(t), 0) {
        Some(h) => abs_as_signed(h),
        None => 0,
    }
}

/// The sparse index of a term.
pub fn token_id(token: &str) -> (r: u32)
    ensures
        r == token_id_of(token@),
{
    let h = match murmur3_32_of(token.as_bytes(), 0) {
        Some(h) => h,
        None => 0,
    };
    if h < 0x8000_0000 {
        h
    } else {
        let wide: u64 = 0x1_0000_0000u64 - (h as u64);
        wide as u32
    }
}

// ---------------------------------------------------------------------------
// Terms
// ---------------------------------------------------------------------------

/// English stop words, dropped when stemming is on.
pub open spec fn english_stopwords() -> Seq<Seq<char>> {
    seq![
        "a"@,
        "about"@,
        "above"@,
        "after"@,
        "again"@,
        "against"@,
        "ain"@,
        "all"@,
        "am"@,
        "an"@,
        "and"@,
        "any"@,
        "are"@,
        "aren"@,
        "aren't"@,
        "as"@,
        "at"@,
        "be"@,
        "because"@,
        "been"@,
        "before"@,
        "being"@,
        "below"@,
        "between"@,
        "both"@,
        "but"@,
        "by"@,
        "can"@,
        "couldn"@,
        "couldn't"@,
        "d"@,
        "did"@,
        "didn"@,
        "didn't"@,
        "do"@,
        "does"@,
        "doesn"@,
        "doesn't"@,
        "doing"@,
        "don"@,
        "don't"@,
        "down"@,
        "during"@,
        "each"@,
        "few"@,
        "for"@,
        "from"@,
        "further"@,
        "had"@,
        "hadn"@,
        "hadn't"@,
        "has"@,
        "hasn"@,
        "hasn't"@,
        "have"@,
        "haven"@,
        "haven't"@,
        "having"@,
        "he"@,
        "her"@,
        "here"@,
        "hers"@,
        "herself"@,
        "him"@,
        "himself"@,
        "his"@,
        "how"@,
        "i"@,
        "if"@,
        "in"@,
        "into"@,
        "is"@,
        "isn"@,
        "isn't"@,
        "it"@,
        "it's"@,
        "its"@,
        "itself"@,
        "just"@,
        "ll"@,
        "m"@,
        "ma"@,
        "me"@,
        "mightn"@,
        "mightn't"@,
        "more"@,
        "most"@,
        "mustn"@,
        "mustn't"@,
        "my"@,
        "myself"@,
        "needn"@,
        "needn't"@,
        "no"@,
        "nor"@,
        "not"@,
        "now"@,
        "o"@,
        "of"@,
        "off"@,
        "on"@,
        "once"@,
        "only"@,
        "or"@,
        "other"@,
        "our"@,
        "ours"@,
        "ourselves"@,
        "out"@,
        "over"@,
        "own"@,
        "re"@,
        "s"@,
        "same"@,
        "shan"@,
        "shan't"@,
        "she"@,
        "she's"@,
        "should"@,
        "should've"@,
        "shouldn"@,
        "shouldn't"@,
        "so"@,
        "some"@,
        "such"@,
        "t"@,
        "than"@,
        "that"@,
        "that'll"@,
        "the"@,
        "their"@,
        "theirs"@,
        "them"@,
        "themselves"@,
        "then"@,
        "there"@,
        "these"@,
        "they"@,
        "this"@,
        "those"@,
        "through"@,
        "to"@,
        "too"@,
        "under"@,
        "until"@,
        "up"@,
        "ve"@,
        "very"@,
        "was"@,
        "wasn"@,
        "wasn't"@,
        "we"@,
        "were"@,
        "weren"@,
        "weren't"@,
        "what"@,
        "when"@,
        "where"@,
        "which"@,
        "while"@,
        "who"@,
        "whom"@,
        "why"@,
        "will"@,
        "with"@,
        "won"@,
        "won't"@,
        "wouldn"@,
        "wouldn't"@,
        "y"@,
        "you"@,
        "you'd"@,
        "you'll"@,
        "you're"@,
        "you've"@,
        "your"@,
        "yours"@,
        "yourself"@,
        "yourselves"@,
    ]
}

/// Whether a token is an English stop word.
pub open spec fn is_stopword(w: Seq<char>) -> bool {
    exists|k: int| 0 <= k < english_stopwords().len() && #[trigger] english_stopwords()[k] == w
}

fn stopword_list() -> (r: Vec<&'static str>)
    ensures
        r@.len() == english_stopwords().len(),
        forall|k: int| 0 <= k < r@.len() ==> (#[trigger] r@[k])@ == english_stopwords()[k],
{
    let r: Vec<&'static str> = vec![
        "a",
        "about",
        "above",
        "after",
        "again",
        "against",
        "ain",
        "all",
        "am",
        "an",
        "and",
        "any",
        "are",
        "aren",
        "aren't",
        "as",
        "at",
        "be",
        "because",
        "been",
        "before",
        "being",
        "below",
        "between",
        "both",
        "but",
        "by",
        "can",
        "couldn",
        "couldn't",
        "d",
        "did",
        "didn",
        "didn't",
        "do",
        "does",
        "doesn",
        "doesn't",
        "doing",
        "don",
        "don't",
        "down",
        "during",
        "each",
        "few",
        "for",
        "from",
        "further",
        "had",
        "hadn",
        "hadn't",
        "has",
        "hasn",
        "hasn't",
        "have",
        "haven",
        "haven't",
        "having",
        "he",
        "her",
        "here",
        "hers",
        "herself",
        "him",
        "himself",
        "his",
        "how",
        "i",
        "if",
        "in",
        "into",
        "is",
        "isn",
        "isn't",
        "it",
        "it's",
        "its",
        "itself",
        "just",
        "ll",
        "m",
        "ma",
        "me",
        "mightn",
        "mightn't",
        "more",
        "most",
        "mustn",
        "mustn't",
        "my",
        "myself",
        "needn",
        "needn't",
        "no",
        "nor",
        "not",
        "now",
        "o",
        "of",
        "off",
        "on",
        "once",
        "only",
        "or",
        "other",
        "our",
        "ours",
        "ourselves",
        "out",
        "over",
        "own",
        "re",
        "s",
        "same",
        "shan",
        "shan't",
        "she",
        "she's",
        "should",
        "should've",
        "shouldn",
        "shouldn't",
        "so",
        "some",
        "such",
        "t",
        "than",
        "that",
        "that'll",
        "the",
        "their",
        "theirs",
        "them",
        "themselves",
        "then",
        "there",
        "these",
        "they",
        "this",
        "those",
        "through",
        "to",
        "too",
        "under",
        "until",
        "up",
        "ve",
        "very",
        "was",
        "wasn",
        "wasn't",
        "we",
        "were",
        "weren",
        "weren't",
        "what",
        "when",
        "where",
        "which",
        "while",
        "who",
        "whom",
        "why",
        "will",
        "with",
        "won",
        "won't",
        "wouldn",
        "wouldn't",
        "y",
        "you",
        "you'd",
        "you'll",
        "you're",
        "you've",
        "your",
        "yours",
        "yourself",
        "yourselves",
    ];
    assert(r@ =~= seq![
        "a",
        "about",
        "above",
        "after",
        "again",
        "against",
        "ain",
        "all",
        "am",
        "an",
        "and",
        "any",
        "are",
        "aren",
        "aren't",
        "as",
        "at",
        "be",
        "because",
        "been",
        "before",
        "being",
        "below",
        "between",
        "both",
        "but",
        "by",
        "can",
        "couldn",
        "couldn't",
        "d",
        "did",
        "didn",
        "didn't",
        "do",
        "does",
        "doesn",
        "doesn't",
        "doing",
        "don",
        "don't",
        "down",
        "during",
        "each",
        "few",
        "for",
        "from",
        "further",
        "had",
        "hadn",
        "hadn't",
        "has",
        "hasn",
        "hasn't",
        "have",
        "haven",
        "haven't",
        "having",
        "he",
        "her",
        "here",
        "hers",
        "herself",
        "him",
        "himself",
        "his",
        "how",
        "i",
        "if",
        "in",
        "into",
        "is",
        "isn",
        "isn't",
        "it",
        "it's",
        "its",
        "itself",
        "just",
        "ll",
        "m",
        "ma",
        "me",
        "mightn",
        "mightn't",
        "more",
        "most",
        "mustn",
        "mustn't",
        "my",
        "myself",
        "needn",
        "needn't",
        "no",
        "nor",
        "not",
        "now",
        "o",
        "of",
        "off",
        "on",
        "once",
        "only",
        "or",
        "other",
        "our",
        "ours",
        "ourselves",
        "out",
        "over",
        "own",
        "re",
        "s",
        "same",
        "shan",
        "shan't",
        "she",
        "she's",
        "should",
        "should've",
        "shouldn",
        "shouldn't",
        "so",
        "some",
        "such",
        "t",
        "than",
        "that",
        "that'll",
        "the",
        "their",
        "theirs",
        "them",
        "themselves",
        "then",
        "there",
        "these",
        "they",
        "this",
        "those",
        "through",
        "to",
        "too",
        "under",
        "until",
        "up",
        "ve",
        "very",
        "was",
        "wasn",
        "wasn't",
        "we",
        "were",
        "weren",
        "weren't",
        "what",
        "when",
        "where",
        "which",
        "while",
        "who",
        "whom",
        "why",
        "will",
        "with",
        "won",
        "won't",
        "wouldn",
        "wouldn't",
        "y",
        "you",
        "you'd",
        "you'll",
        "you're",
        "you've",
        "your",
        "yours",
        "yourself",
        "yourselves",
    ]);
    r
}

fn stopword(w: &str) -> (r: bool)
    ensures
        r == is_stopword(w@),
{
    let list = stopword_list();
    let mut k: usize = 0;
    while k < list.len()
        invariant
            k <= list.len(),
            list@.len() == english_stopwords().len(),
            forall|j: int| 0 <= j < list@.len() ==> (#[trigger] list@[j])@ == english_stopwords()[j],
            forall|j: int| 0 <= j < k ==> english_stopwords()[j] != w@,
        decreases list.len() - k,
    {
        assert(list@[k as int]@ == english_stopwords()[k as int]);
        if str_eq(list[k], w) {
            return true;
        }
        k += 1;
    }
    false
}

/// What the English Snowball stemmer returns for a word.
pub uninterp spec fn stem_spec(w: Seq<char>) -> Seq<char>;

/// `rust_stemmers::Stemmer::stem` with the English algorithm. The
/// contract names the result; it is a function of the word alone.
#[verifier::external_body]
fn stem_english(w: &str) -> (r: String)
    ensures
        r@ == stem_spec(w@),
{
    rust_stemmers::Stemmer::create(rust_stemmers::Algorithm::English).stem(w).into_owned()
}

/// The terms of a token list: tokens longer than `TOKEN_MAX_LENGTH`
/// characters dropped; with stemming, stop words dropped and the rest
/// stemmed (empty stems dropped).
pub open spec fn terms_of(ts: Seq<Seq<char>>, stem: bool) -> Seq<Seq<char>>
    decreases ts.len(),
{
    if ts.len() == 0 {
        Seq::empty()
    } else {
        let p = terms_of(ts.drop_last(), stem);
        let raw = ts.last();
        if raw.len() == 0 || raw.len() > TOKEN_MAX_LENGTH {
            p
        } else if stem {
            if is_stopword(raw) || stem_spec(raw).len() == 0 {
                p
            } else {
                p.push(stem_spec(raw))
            }
        } else {
            p.push(raw)
        }
    }
}

/// The BM25 terms of a text.
pub fn tokenize_and_stem(text: &str, stem: bool) -> (r: Vec<String>)
    ensures
        views(r@) == terms_of(simple_tokens(text@), stem),
{
    let tokens = tokenize_simple(text);
    let mut out: Vec<String> = Vec::new();
    let mut i: usize = 0;
    while i < tokens.len()
        invariant
            i <= tokens.len(),
            views(out@) == terms_of(views(tokens@).take(i as int), stem),
        decreases tokens.len() - i,
    {
        let ghost pre = views(tokens@).take(i as int);
        assert(views(tokens@).take(i + 1).drop_last() =~= pre);
        assert(views(tokens@).take(i + 1).last() == tokens@[i as int]@);
        let raw = &tokens[i];
        let n = chars_of(raw.as_str()).len();
        if n == 0 || n > TOKEN_MAX_LENGTH {
        } else if stem {
            if !stopword(raw.as_str()) {
                let s = stem_english(raw.as_str());
                if !s.as_str().is_empty() {
                    push_string(&mut out, s);
                }
            }
        } else {
            push_string(&mut out, raw.clone());
        }
        i += 1;
    }
    assert(views(tokens@).take(tokens.len() as int) =~= views(tokens@));
    out
}

/// The sparse indices of a query: the terms' ids, sorted, each once.
pub fn query_token_ids(text: &str, stem: bool) -> (r: Vec<u32>)
    ensures
        forall|a: int, b: int| 0 <= a < b < r@.len() ==> r@[a] < r@[b],
        forall|x: u32| r@.contains(x) <==> exists|i: int|
            0 <= i < terms_of(simple_tokens(text@), stem).len() && x == token_id_of(
                #[trigger] terms_of(simple_tokens(text@), stem)[i],
            ),
{
    let terms = tokenize_and_stem(text, stem);
    let ghost ts = views(terms@);
    let mut ids: Vec<u32> = Vec::new();
    let mut i: usize = 0;
    while i < terms.len()
        invariant
            i <= terms.len(),
            ts == views(terms@),
            forall|a: int, b: int| 0 <= a < b < ids@.len() ==> ids@[a] < ids@[b],
            forall|x: u32| ids@.contains(x) <==> exists|j: int| 0 <= j < i && x == token_id_of(#[trigger] ts[j]),
        decreases terms.len() - i,
    {
        let id = token_id(terms[i].as_str());
        assert(ts[i as int] == terms@[i as int]@);
        insert_sorted_unique(&mut ids, id);
        i += 1;
        assert forall|x: u32| ids@.contains(x) <== exists|j: int| 0 <= j < i && x == token_id_of(#[trigger] ts[j]) by {
            if exists|j: int| 0 <= j < i && x == token_id_of(#[trigger] ts[j]) {
                let j = choose|j: int| 0 <= j < i && x == token_id_of(#[trigger] ts[j]);
                if j < i - 1 {
                    assert(exists|jj: int| 0 <= jj < i - 1 && x == token_id_of(#[trigger] ts[jj]));
                }
            }
        }
    }
    ids
}

/// Inserts `x` into a strictly increasing vector unless it is there.
fn insert_sorted_unique(v: &mut Vec<u32>, x: u32)
    requires
        forall|a: int, b: int| 0 <= a < b < old(v)@.len() ==> old(v)@[a] < old(v)@[b],
    ensures
        forall|a: int, b: int| 0 <= a < b < final(v)@.len() ==> final(v)@[a] < final(v)@[b],
        forall|y: u32| #![trigger final(v)@.contains(y)] #![trigger old(v)@.contains(y)] final(v)@.contains(y) <==> (old(v)@.contains(y) || y == x),
{
    let mut k: usize = 0;
    while k < v.len() && v[k] < x
        invariant
            k <= v.len(),
            forall|a: int| 0 <= a < k ==> v@[a] < x,
        decreases v.len() - k,
    {
        k += 1;
    }
    if k < v.len() && v[k] == x {
        assert(v@[k as int] == x);
        assert(v@.contains(x));
        return;
    }
    let ghost before = v@;
    assert(before == old(v)@);
    v.insert(k, x);
    assert(v@ =~= before.take(k as int).push(x) + before.skip(k as int));
    assert forall|y: u32| #![trigger v@.contains(y)] #![trigger before.contains(y)] v@.contains(y) <==> (before.contains(y) || y == x) by {
        if v@.contains(y) {
            let i = choose|i: int| 0 <= i < v@.len() && v@[i] == y;
            if i < k {
                assert(before[i] == y);
            } else if i > k {
                assert(before[i - 1] == y);
            }
        }
        if before.contains(y) {
            let i = choose|i: int| 0 <= i < before.len() && before[i] == y;
            if i < k {
                assert(v@[i] == y);
            } else {
                assert(v@[i + 1] == y);
            }
        }
        if y == x {
            assert(v@[k as int] == y);
        }
    }
    assert forall|a: int, b: int| 0 <= a < b < v@.len() implies v@[a] < v@[b] by {
        if a < k && b == k {
            assert(before[a] < x);
        } else if a < k && b > k {
            assert(before[a] < x);
            assert(k < before.len() ==> x < before[k as int]);
            assert(before[a] < before[b - 1]);
        } else if a == k && b > k {
            assert(x < before[k as int]);
            assert(before[k as int] <= before[b - 1]);
        } else if a > k {
            assert(before[a - 1] < before[b - 1]);
        }
    }
}

/// Whether a term has an entry in a term-count list.
pub open spec fn is_counted(r: Seq<(String, usize)>, t: Seq<char>) -> bool {
    exists|k: int| 0 <= k < r.len() && (#[trigger] r[k]).0@ == t
}

fn find_term(out: &Vec<(String, usize)>, t: &str) -> (r: Option<usize>)
    ensures
        match r {
            Some(k) => k < out@.len() && out@[k as int].0@ == t@,
            None => forall|m: int| 0 <= m < out@.len() ==> (#[trigger] out@[m]).0@ != t@,
        },
{
    let mut k: usize = 0;
    while k < out.len()
        invariant
            k <= out.len(),
            forall|m: int| 0 <= m < k ==> (#[trigger] out@[m]).0@ != t@,
        decreases out.len() - k,
    {
        if str_eq(out[k].0.as_str(), t) {
            return Some(k);
        }
        k += 1;
    }
    None
}

/// Term frequencies: each distinct term once, in order of first
/// appearance, with the number of times it occurs.
pub fn term_counts(terms: &Vec<String>) -> (r: Vec<(String, usize)>)
    ensures
        forall|a: int, b: int| 0 <= a < b < r@.len() ==> r@[a].0@ != r@[b].0@,
        forall|k: int| 0 <= k < r@.len() ==> views(terms@).contains((#[trigger] r@[k]).0@),
        forall|j: int| 0 <= j < terms@.len() ==> is_counted(r@, (#[trigger] terms@[j])@),
        forall|k: int| 0 <= k < r@.len() ==> (#[trigger] r@[k]).1 == views(terms@).to_multiset().count(r@[k].0@),
{
    broadcast use vstd::multiset::group_multiset_axioms;
    broadcast use vstd::seq_lib::group_to_multiset_ensures;
    let ghost ts = views(terms@);
    let mut out: Vec<(String, usize)> = Vec::new();
    let mut i: usize = 0;
    while i < terms.len()
        invariant
            i <= terms.len(),
            ts == views(terms@),
            forall|a: int, b: int| 0 <= a < b < out@.len() ==> out@[a].0@ != out@[b].0@,
            forall|k: int| 0 <= k < out@.len() ==> ts.take(i as int).contains((#[trigger] out@[k]).0@),
            forall|j: int| 0 <= j < i ==> is_counted(out@, (#[trigger] terms@[j])@),
            forall|k: int| 0 <= k < out@.len() ==> (#[trigger] out@[k]).1 == ts.take(i as int).to_multiset().count(out@[k].0@),
            forall|k: int| 0 <= k < out@.len() ==> (#[trigger] out@[k]).1 <= i,
        decreases terms.len() - i,
    {
        let t = &terms[i];
        let ghost pre = ts.take(i as int);
        let ghost cur = ts.take(i + 1);
        assert(cur =~= pre.push(t@));
        proof {
            pre.to_multiset_ensures();
        }
        assert(pre.push(t@).to_multiset() =~= pre.to_multiset().insert(t@));
        assert(cur.to_multiset() =~= pre.to_multiset().insert(t@));
        let ghost before = out@;
        match find_term(&out, t.as_str()) {
            Some(k) => {
                let (name, c) = out.remove(k);
                out.insert(k, (name, c + 1));
                assert(out@ =~= before.update(k as int, (name, (c + 1) as usize)));
                assert forall|kk: int| 0 <= kk < out@.len() implies cur.contains((#[trigger] out@[kk]).0@) by {
                    let w = choose|w: int| 0 <= w < pre.len() && pre[w] == before[kk].0@;
                    assert(cur[w] == before[kk].0@);
                }
                assert forall|j: int| 0 <= j < i + 1 implies is_counted(out@, (#[trigger] terms@[j])@) by {
                    if j == i {
                        assert(out@[k as int].0@ == terms@[j]@);
                    } else {
                        let kk = choose|kk: int| 0 <= kk < before.len() && (#[trigger] before[kk]).0@ == terms@[j]@;
                        assert(out@[kk].0@ == terms@[j]@);
                    }
                }
            },
            None => {
                out.push((t.clone(), 1));
                assert forall|kk: int| 0 <= kk < out@.len() implies cur.contains((#[trigger] out@[kk]).0@) by {
                    if kk < before.len() {
                        let w = choose|w: int| 0 <= w < pre.len() && pre[w] == before[kk].0@;
                        assert(cur[w] == before[kk].0@);
                    } else {
                        assert(cur[i as int] == t@);
                    }
                }
                assert forall|j: int| 0 <= j < i + 1 implies is_counted(out@, (#[trigger] terms@[j])@) by {
                    if j == i {
                        assert(out@[before.len() as int].0@ == terms@[j]@);
                    } else {
                        let kk = choose|kk: int| 0 <= kk < before.len() && (#[trigger] before[kk]).0@ == terms@[j]@;
                        assert(out@[kk].0@ == terms@[j]@);
                    }
                }
                proof {
                    if pre.contains(t@) {
                        let w = choose|w: int| 0 <= w < pre.len() && pre[w] == t@;
                        assert(ts[w] == terms@[w]@);
                        let kk = choose|kk: int| 0 <= kk < before.len() && (#[trigger] before[kk]).0@ == terms@[w]@;
                        assert(false);
                    }
                    vstd::seq_lib::to_multiset_contains(pre, t@);
                    assert(pre.to_multiset().count(t@) == 0);
                }
            },
        }
        i += 1;
    }
    assert(ts.take(terms.len() as int) =~= ts);
    out
}

} // verus!
