//! Which chunker handles a file: extension lookup, the extension of a
//! `/`-separated path, and the text encoding of a file's bytes.
use vstd::prelude::*;
use crate::text::{chars_of, str_eq, ascii_lower_chars, ascii_lower_seq, string_of_range, utf8_lossy, utf8_lossy_spec};

verus! {

/// The languages that have a dedicated chunker.
#[derive(Debug, Clone, Copy, PartialEq, Eq, Structural)]
pub enum Language {
    C,
    Cpp,
    CSharp,
    Java,
    JavaScript,
    TypeScript,
    TypeScriptTsx,
    Rust,
    Python,
    Sql,
}

/// The chunker language of a (case-sensitive) file extension.
pub open spec fn language_of(ext: Seq<char>) -> Option<Language> {
    if ext == "c"@ || ext == "h"@ {
        Some(Language::C)
    } else if ext == "cpp"@ || ext == "hpp"@ || ext == "cc"@ || ext == "cxx"@ || ext == "hh"@ {
        Some(Language::Cpp)
    } else if ext == "cs"@ {
        Some(Language::CSharp)
    } else if ext == "java"@ {
        Some(Language::Java)
    } else if ext == "ts"@ {
        Some(Language::TypeScript)
    } else if ext == "tsx"@ || ext == "jsx"@ {
        Some(Language::TypeScriptTsx)
    } else if ext == "js"@ || ext == "mjs"@ || ext == "cjs"@ {
        Some(Language::JavaScript)
    } else if ext == "py"@ || ext == "pyi"@ {
        Some(Language::Python)
    } else if ext == "rs"@ {
        Some(Language::Rust)
    } else if ext == "sql"@ {
        Some(Language::Sql)
    } else {
        None
    }
}

/// The supported extensions, each with the chunker that takes it: C for
/// `c`, `h`; C++ for `cpp`, `hpp`, `cc`, `cxx`, `hh`; C# for `cs`; Java for
/// `java`; TypeScript for `ts`; TSX for `tsx`, `jsx`; JavaScript for `js`,
/// `mjs`, `cjs`; Python for `py`, `pyi`; Rust for `rs`; SQL for `sql`.
pub open spec fn supported_extensions() -> Seq<(Seq<char>, Language)> {
    seq![
        ("c"@, Language::C),
        ("h"@, Language::C),
        ("cpp"@, Language::Cpp),
        ("hpp"@, Language::Cpp),
        ("cc"@, Language::Cpp),
        ("cxx"@, Language::Cpp),
        ("hh"@, Language::Cpp),
        ("cs"@, Language::CSharp),
        ("java"@, Language::Java),
        ("ts"@, Language::TypeScript),
        ("tsx"@, Language::TypeScriptTsx),
        ("jsx"@, Language::TypeScriptTsx),
        ("js"@, Language::JavaScript),
        ("mjs"@, Language::JavaScript),
        ("cjs"@, Language::JavaScript),
        ("py"@, Language::Python),
        ("pyi"@, Language::Python),
        ("rs"@, Language::Rust),
        ("sql"@, Language::Sql),
    ]
}

/// The language of the first entry of `table` (from `i` on) for `ext`.
pub open spec fn table_language(table: Seq<(Seq<char>, Language)>, ext: Seq<char>, i: int) -> Option<Language>
    decreases table.len() - i,
{
    if i < 0 || i >= table.len() {
        None
    } else if table[i].0 == ext {
        Some(table[i].1)
    } else {
        table_language(table, ext, i + 1)
    }
}

/// Law: an extension has a chunker exactly when it is one of the supported
/// extensions, and then it is that extension's chunker; every other
/// extension has none.
pub proof fn lemma_language_table(ext: Seq<char>)
    ensures
        language_of(ext) == table_language(supported_extensions(), ext, 0),
{
    let t = supported_extensions();
    reveal_with_fuel(table_language, 20);
    assert(t.len() == 19);
    assert(t[0] == ("c"@, Language::C));
    assert(t[1] == ("h"@, Language::C));
    assert(t[2] == ("cpp"@, Language::Cpp));
    assert(t[3] == ("hpp"@, Language::Cpp));
    assert(t[4] == ("cc"@, Language::Cpp));
    assert(t[5] == ("cxx"@, Language::Cpp));
    assert(t[6] == ("hh"@, Language::Cpp));
    assert(t[7] == ("cs"@, Language::CSharp));
    assert(t[8] == ("java"@, Language::Java));
    assert(t[9] == ("ts"@, Language::TypeScript));
    assert(t[10] == ("tsx"@, Language::TypeScriptTsx));
    assert(t[11] == ("jsx"@, Language::TypeScriptTsx));
    assert(t[12] == ("js"@, Language::JavaScript));
    assert(t[13] == ("mjs"@, Language::JavaScript));
    assert(t[14] == ("cjs"@, Language::JavaScript));
    assert(t[15] == ("py"@, Language::Python));
    assert(t[16] == ("pyi"@, Language::Python));
    assert(t[17] == ("rs"@, Language::Rust));
    assert(t[18] == ("sql"@, Language::Sql));
}

/// Law: every C++ extension (`cpp`, `hpp`, `cc`, `cxx`, `hh`) goes to the
/// C++ chunker, and a file with one of them, in any letter case, is a code
/// file.
pub proof fn lemma_cpp_extensions(ext: Seq<char>, path: Seq<char>)
    ensures
        (ext == "cpp"@ || ext == "hpp"@ || ext == "cc"@ || ext == "cxx"@ || ext == "hh"@)
            ==> language_of(ext) == Some(Language::Cpp),
        (path_extension(path) matches Some(e) && {
            let l = crate::sql::lower_spec(e);
            l == "cpp"@ || l == "hpp"@ || l == "cc"@ || l == "cxx"@ || l == "hh"@
        }) ==> (match path_extension(path) {
            Some(e) => language_of(crate::sql::lower_spec(e)) is Some,
            None => false,
        }),
{
    reveal_strlit("c");
    reveal_strlit("h");
    reveal_strlit("cpp");
    reveal_strlit("hpp");
    reveal_strlit("cc");
    reveal_strlit("cxx");
    reveal_strlit("hh");
    assert("cc"@ != "hh"@) by {
        assert("cc"@[0] != "hh"@[0]);
    }
    assert("cpp"@ != "hpp"@) by {
        assert("cpp"@[0] != "hpp"@[0]);
    }
    assert("cxx"@ != "cpp"@ && "cxx"@ != "hpp"@) by {
        assert("cxx"@[1] != "cpp"@[1]);
        assert("cxx"@[0] != "hpp"@[0]);
    }
    assert("c"@.len() == 1 && "h"@.len() == 1 && "cc"@.len() == 2 && "hh"@.len() == 2);
    assert("cpp"@.len() == 3 && "hpp"@.len() == 3 && "cxx"@.len() == 3);
    assert("c"@ != "cc"@ && "c"@ != "hh"@ && "h"@ != "cc"@ && "h"@ != "hh"@);
    assert("c"@ != "cpp"@ && "c"@ != "hpp"@ && "c"@ != "cxx"@);
    assert("h"@ != "cpp"@ && "h"@ != "hpp"@ && "h"@ != "cxx"@);
    if let Some(e) = path_extension(path) {
        lemma_language_table(crate::sql::lower_spec(e));
    }
}

/// Maps a file extension to its chunker language; `None` for extensions
/// without a dedicated chunker.
pub fn language_for_extension(ext: &str) -> (r: Option<Language>)
    ensures
        r == language_of(ext@),
{
    if str_eq(ext, "c") || str_eq(ext, "h") {
        Some(Language::C)
    } else if str_eq(ext, "cpp") || str_eq(ext, "hpp") || str_eq(ext, "cc") || str_eq(ext, "cxx")
        || str_eq(ext, "hh") {
        Some(Language::Cpp)
    } else if str_eq(ext, "cs") {
        Some(Language::CSharp)
    } else if str_eq(ext, "java") {
        Some(Language::Java)
    } else if str_eq(ext, "ts") {
        Some(Language::TypeScript)
    } else if str_eq(ext, "tsx") || str_eq(ext, "jsx") {
        Some(Language::TypeScriptTsx)
    } else if str_eq(ext, "js") || str_eq(ext, "mjs") || str_eq(ext, "cjs") {
        Some(Language::JavaScript)
    } else if str_eq(ext, "py") || str_eq(ext, "pyi") {
        Some(Language::Python)
    } else if str_eq(ext, "rs") {
        Some(Language::Rust)
    } else if str_eq(ext, "sql") {
        Some(Language::Sql)
    } else {
        None
    }
}

// ---------------------------------------------------------------------------
// File name and extension of a `/`-separated path
// ---------------------------------------------------------------------------

/// Index of the first `/` at or after `i`, or the length of `s`.
pub open spec fn slash_end(s: Seq<char>, i: int) -> int
    decreases s.len() - i,
{
    if i < 0 || i >= s.len() {
        s.len() as int
    } else if s[i] == '/' {
        i
    } else {
        slash_end(s, i + 1)
    }
}

pub proof fn lemma_slash_end_bounds(s: Seq<char>, i: int)
    requires
        0 <= i <= s.len(),
    ensures
        i <= slash_end(s, i) <= s.len(),
        slash_end(s, i) < s.len() ==> s[slash_end(s, i)] == '/',
        forall|k: int| i <= k < slash_end(s, i) ==> s[k] != '/',
    decreases s.len() - i,
{
    if i < s.len() && s[i] != '/' {
        lemma_slash_end_bounds(s, i + 1);
    }
}

/// A component that names something: not empty and not `.`.
pub open spec fn named_component(c: Seq<char>) -> bool {
    c.len() > 0 && c != "."@
}

/// The span of the last named component of `s` that starts at or after
/// `i`, or `acc` when there is none.
pub open spec fn last_component(s: Seq<char>, i: int, acc: Option<(int, int)>) -> Option<(int, int)>
    decreases s.len() - i,
{
    if i < 0 || i > s.len() {
        acc
    } else {
        let e = slash_end(s, i);
        let acc2 = if named_component(s.subrange(i, e)) {
            Some((i, e))
        } else {
            acc
        };
        if e >= s.len() {
            acc2
        } else {
            proof {
                lemma_slash_end_bounds(s, i);
            }
            last_component(s, e + 1, acc2)
        }
    }
}

/// `Path::file_name` on a `/`-separated path: the last component that is
/// neither empty nor `.`, unless that component is `..`.
pub open spec fn file_name_of(p: Seq<char>) -> Option<Seq<char>> {
    match last_component(p, 0, None) {
        Some((a, b)) => if p.subrange(a, b) == ".."@ {
            None
        } else {
            Some(p.subrange(a, b))
        },
        None => None,
    }
}

/// Index of the last `.` before `n`, or `-1`.
pub open spec fn last_dot(s: Seq<char>, n: int) -> int
    decreases n,
{
    if n <= 0 {
        -1
    } else if s[n - 1] == '.' {
        n - 1
    } else {
        last_dot(s, n - 1)
    }
}

pub proof fn lemma_last_dot_bounds(s: Seq<char>, n: int)
    requires
        0 <= n <= s.len(),
    ensures
        -1 <= last_dot(s, n) < n,
        last_dot(s, n) >= 0 ==> s[last_dot(s, n)] == '.',
        forall|k: int| last_dot(s, n) < k < n ==> s[k] != '.',
    decreases n,
{
    if n > 0 && s[n - 1] != '.' {
        lemma_last_dot_bounds(s, n - 1);
    }
}

/// `Path::extension` of a file name: the text after the last `.`, unless
/// there is no `.` or the only one starts the name.
pub open spec fn extension_of_name(name: Seq<char>) -> Option<Seq<char>> {
    let k = last_dot(name, name.len() as int);
    if k <= 0 {
        None
    } else {
        Some(name.subrange(k + 1, name.len() as int))
    }
}

/// `Path::extension` of a `/`-separated path.
pub open spec fn path_extension(p: Seq<char>) -> Option<Seq<char>> {
    match file_name_of(p) {
        Some(name) => extension_of_name(name),
        None => None,
    }
}

fn slash_end_exec(v: &Vec<char>, i: usize) -> (e: usize)
    requires
        i <= v.len(),
    ensures
        e == slash_end(v@, i as int),
{
    let mut j = i;
    while j < v.len() && v[j] != '/'
        invariant
            i <= j <= v.len(),
            slash_end(v@, j as int) == slash_end(v@, i as int),
        decreases v.len() - j,
    {
        j += 1;
    }
    j
}

/// The span of the file name of a `/`-separated path, if it has one.
fn file_name_span(v: &Vec<char>) -> (r: Option<(usize, usize)>)
    ensures
        match r {
            Some((a, b)) => a <= b <= v.len() && file_name_of(v@) == Some(v@.subrange(a as int, b as int)),
            None => file_name_of(v@) is None,
        },
{
    let mut acc: Option<(usize, usize)> = None;
    let mut i: usize = 0;
    let ghost mut acc_int: Option<(int, int)> = None;
    loop
        invariant_except_break
            i <= v.len(),
            last_component(v@, i as int, acc_int) == last_component(v@, 0, None),
        invariant
            match acc {
                Some((a, b)) => acc_int == Some((a as int, b as int)) && a <= b <= v.len(),
                None => acc_int is None,
            },
        ensures
            acc_int == last_component(v@, 0, None),
        decreases v.len() - i,
    {
        let e = slash_end_exec(v, i);
        let ghost acc_old = acc_int;
        proof {
            lemma_slash_end_bounds(v@, i as int);
        }
        let len = e - i;
        let is_dot = len == 1 && v[i] == '.';
        proof {
            reveal_strlit(".");
            assert("."@ =~= seq!['.']);
            let sub = v@.subrange(i as int, e as int);
            assert(sub.len() == len);
            if len == 1 {
                assert(sub =~= seq![v@[i as int]]);
                assert(is_dot == (v@[i as int] == '.'));
                assert(sub[0] == v@[i as int]);
                assert(("."@)[0] == '.');
                if sub == "."@ {
                    assert(v@[i as int] == '.');
                }
            } else {
                assert(sub.len() != ("."@).len());
                assert(sub != "."@);
            }
            assert(named_component(v@.subrange(i as int, e as int)) == (len > 0 && !is_dot));
        }
        if len > 0 && !is_dot {
            acc = Some((i, e));
            proof {
                acc_int = Some((i as int, e as int));
            }
        }
        proof {
            let acc2 = if named_component(v@.subrange(i as int, e as int)) {
                Some((i as int, e as int))
            } else {
                acc_old
            };
            assert(acc_int == acc2);
            assert(last_component(v@, i as int, acc_old) == if e >= v.len() {
                acc2
            } else {
                last_component(v@, e + 1, acc2)
            });
        }
        if e >= v.len() {
            break;
        }
        i = e + 1;
    }
    match acc {
        Some((a, b)) => {
            let is_dotdot = b - a == 2 && v[a] == '.' && v[a + 1] == '.';
            proof {
                reveal_strlit("..");
                assert(".."@ =~= seq!['.', '.']);
                let sub = v@.subrange(a as int, b as int);
                if b - a == 2 {
                    assert(sub =~= seq![v@[a as int], v@[a + 1]]);
                    assert(sub[0] == v@[a as int] && sub[1] == v@[a + 1]);
                    assert((".."@)[0] == '.' && (".."@)[1] == '.');
                } else {
                    assert(sub.len() != (".."@).len());
                }
                assert((v@.subrange(a as int, b as int) == ".."@) == is_dotdot);
                assert(last_component(v@, 0, None) == Some((a as int, b as int)));
            }
            if is_dotdot {
                None
            } else {
                Some((a, b))
            }
        },
        None => None,
    }
}

/// The file name of a `/`-separated path, as `Path::file_name` gives it.
pub fn path_file_name(path: &str) -> (r: Option<String>)
    ensures
        match r {
            Some(n) => file_name_of(path@) == Some(n@),
            None => file_name_of(path@) is None,
        },
{
    let v = chars_of(path);
    match file_name_span(&v) {
        None => None,
        Some((a, b)) => Some(string_of_range(&v, a, b)),
    }
}

/// The extension of a `/`-separated path, as `Path::extension` gives it.
pub fn path_extension_of(path: &str) -> (r: Option<String>)
    ensures
        match r {
            Some(e) => path_extension(path@) == Some(e@),
            None => path_extension(path@) is None,
        },
{
    let v = chars_of(path);
    match file_name_span(&v) {
        None => None,
        Some((a, b)) => {
            let ghost name = v@.subrange(a as int, b as int);
            let mut k = b;
            while k > a && v[k - 1] != '.'
                invariant
                    a <= k <= b <= v.len(),
                    name == v@.subrange(a as int, b as int),
                    last_dot(name, (k - a) as int) == last_dot(name, name.len() as int),
                decreases k - a,
            {
                assert(name[(k - a) - 1] == v@[k - 1]);
                k -= 1;
            }
            proof {
                if k > a {
                    assert(name[(k - a) - 1] == v@[k - 1]);
                }
            }
            if k - a <= 1 {
                None
            } else {
                let e = string_of_range(&v, k, b);
                assert(name.subrange((k - a) as int, name.len() as int) =~= v@.subrange(
                    k as int,
                    b as int,
                ));
                Some(e)
            }
        },
    }
}

/// Whether an extension, in lower case (`str::to_lowercase`), has a
/// dedicated chunker.
pub fn is_code_extension(ext: &str) -> (r: bool)
    ensures
        r == language_of(crate::sql::lower_spec(ext@)) is Some,
{
    let lower = crate::sql::to_lowercase(ext);
    language_for_extension(lower.as_str()).is_some()
}

/// Whether the file at `path` (a `/`-separated path) has a dedicated chunker,
/// judged by its extension in lower case.
pub fn is_code_file(path: &str) -> (r: bool)
    ensures
        r == match path_extension(path@) {
            Some(e) => language_of(crate::sql::lower_spec(e)) is Some,
            None => false,
        },
{
    match path_extension_of(path) {
        Some(e) => is_code_extension(e.as_str()),
        None => false,
    }
}

// ---------------------------------------------------------------------------
// Text encoding of a file's bytes
// ---------------------------------------------------------------------------

/// The encoding told by a byte-order mark, or by zero high bytes in the
/// first two UTF-16 units; UTF-8 otherwise.
pub open spec fn encoding_of(b: Seq<u8>) -> Seq<char> {
    if b.len() >= 2 && b[0] == 0xffu8 && b[1] == 0xfeu8 {
        "utf-16-le"@
    } else if b.len() >= 2 && b[0] == 0xfeu8 && b[1] == 0xffu8 {
        "utf-16-be"@
    } else if b.len() >= 3 && b[0] == 0xefu8 && b[1] == 0xbbu8 && b[2] == 0xbfu8 {
        "utf-8"@
    } else if b.len() >= 4 && b[1] == 0u8 && b[3] == 0u8 {
        "utf-16-le"@
    } else {
        "utf-8"@
    }
}

/// Detects a file's encoding from its byte-order mark or first four bytes.
pub fn detect_encoding(bytes: &[u8]) -> (r: &'static str)
    ensures
        r@ == encoding_of(bytes@),
{
    if bytes.len() >= 2 && bytes[0] == 0xff && bytes[1] == 0xfe {
        return "utf-16-le";
    }
    if bytes.len() >= 2 && bytes[0] == 0xfe && bytes[1] == 0xff {
        return "utf-16-be";
    }
    if bytes.len() >= 3 && bytes[0] == 0xef && bytes[1] == 0xbb && bytes[2] == 0xbf {
        return "utf-8";
    }
    if bytes.len() >= 4 && bytes[1] == 0x00 && bytes[3] == 0x00 {
        return "utf-16-le";
    }
    "utf-8"
}

/// The UTF-16 code units of `b`, two bytes each in the given byte order; a
/// trailing odd byte is dropped.
pub open spec fn utf16_units(b: Seq<u8>, little_endian: bool) -> Seq<u16> {
    Seq::new(
        b.len() / 2,
        |i: int|
            if little_endian {
                (b[2 * i] + 256 * b[2 * i + 1]) as u16
            } else {
                (b[2 * i + 1] + 256 * b[2 * i]) as u16
            },
    )
}

/// What `String::from_utf16_lossy` returns for the given code units.
pub uninterp spec fn utf16_lossy_spec(units: Seq<u16>) -> Seq<char>;

/// `String::from_utf16_lossy`: decodes UTF-16, replacing unpaired
/// surrogates with U+FFFD. The contract names the result; it is a function
/// of the code units alone.
#[verifier::external_body]
fn utf16_lossy(units: &[u16]) -> (s: String)
    ensures
        s@ == utf16_lossy_spec(units@),
{
    String::from_utf16_lossy(units)
}

/// Decodes UTF-16 bytes in the given byte order, lossily.
pub fn decode_utf16(bytes: &[u8], little_endian: bool) -> (r: String)
    ensures
        r@ == utf16_lossy_spec(utf16_units(bytes@, little_endian)),
{
    let n = bytes.len() / 2;
    let mut units: Vec<u16> = Vec::new();
    let mut i: usize = 0;
    while i < n
        invariant
            n == bytes.len() / 2,
            i <= n,
            units@ == utf16_units(bytes@, little_endian).take(i as int),
        decreases n - i,
    {
        let lo: u16 = bytes[2 * i] as u16;
        let hi: u16 = bytes[2 * i + 1] as u16;
        let u: u16 = if little_endian {
            hi * 256 + lo
        } else {
            lo * 256 + hi
        };
        units.push(u);
        i += 1;
        assert(units@ =~= utf16_units(bytes@, little_endian).take(i as int));
    }
    assert(utf16_units(bytes@, little_endian).take(n as int) =~= utf16_units(bytes@, little_endian));
    utf16_lossy(units.as_slice())
}

/// The text of a file's bytes, decoded by the detected encoding (UTF-8
/// decoding replaces invalid sequences with U+FFFD).
pub open spec fn file_text(b: Seq<u8>) -> Seq<char> {
    if encoding_of(b) == "utf-16-le"@ {
        utf16_lossy_spec(utf16_units(b, true))
    } else if encoding_of(b) == "utf-16-be"@ {
        utf16_lossy_spec(utf16_units(b, false))
    } else {
        utf8_lossy_spec(b)
    }
}

/// Decodes the bytes of a source file by its detected encoding.
pub fn decode_file_text(bytes: &[u8]) -> (r: String)
    ensures
        r@ == file_text(bytes@),
{
    let enc = detect_encoding(bytes);
    if str_eq(enc, "utf-16-le") {
        decode_utf16(bytes, true)
    } else if str_eq(enc, "utf-16-be") {
        decode_utf16(bytes, false)
    } else {
        utf8_lossy(bytes)
    }
}

} // verus!
