//! Decisions of the ingestion service that need no I/O: which paths are
//! ingested, progress percentages, repository names and character-bounded
//! splitting of oversized text.
use vstd::prelude::*;
use crate::text::{
    chars_of, string_of, string_of_range, str_eq, ascii_lower_chars, ascii_lower_seq, ends_with_chars,
    ends_with_spec, contains_chars, contains_spec, concat_str, trim_str, trim_spec,
};
use crate::chunk_types::opt_view;
use crate::document::{digits, digits_string};
use crate::languages::{file_name_of, path_extension, path_file_name, path_extension_of};
use crate::seqtext::{join, views, push_string, join_strings};

verus! {

// ---------------------------------------------------------------------------
// Paths that are never ingested
// ---------------------------------------------------------------------------

/// `png`, `jpg` or `jpeg` (the extension already lower-cased).
pub open spec fn is_image_extension(e: Seq<char>) -> bool {
    e == "png"@ || e == "jpg"@ || e == "jpeg"@
}

/// Whether the path's extension names an image, compared case-insensitively.
pub open spec fn has_image_ext(p: Seq<char>) -> bool {
    match path_extension(p) {
        Some(e) => is_image_extension(ascii_lower_seq(e)),
        None => false,
    }
}

/// Whether a `/`-separated path has a `png`, `jpg` or `jpeg` extension, in
/// any case. Lower-casing only needs ASCII here: no character outside ASCII
/// lower-cases into these extensions.
pub fn is_image_ext(path: &str) -> (r: bool)
    ensures
        r == has_image_ext(path@),
{
    match path_extension_of(path) {
        Some(e) => {
            let l = string_of(&ascii_lower_chars(&chars_of(e.as_str())));
            str_eq(l.as_str(), "png") || str_eq(l.as_str(), "jpg") || str_eq(l.as_str(), "jpeg")
        },
        None => false,
    }
}
/// Extensions of assets, archives, binaries and lock files.
pub open spec fn is_skipped_extension(e: Seq<char>) -> bool {
    e == "map"@
        || e == "css"@
        || e == "scss"@
        || e == "sass"@
        || e == "less"@
        || e == "woff"@
        || e == "woff2"@
        || e == "ttf"@
        || e == "otf"@
        || e == "eot"@
        || e == "ico"@
        || e == "svg"@
        || e == "gif"@
        || e == "webp"@
        || e == "bmp"@
        || e == "mp3"@
        || e == "mp4"@
        || e == "wav"@
        || e == "zip"@
        || e == "gz"@
        || e == "tar"@
        || e == "7z"@
        || e == "rar"@
        || e == "bin"@
        || e == "exe"@
        || e == "dll"@
        || e == "so"@
        || e == "dylib"@
        || e == "pdb"@
        || e == "lock"@
        || e == "sum"@
}

/// File names of minified or bundled assets.
pub open spec fn is_minified_name(n: Seq<char>) -> bool {
    ends_with_spec(n, ".min.js"@)
        || ends_with_spec(n, ".min.mjs"@)
        || ends_with_spec(n, ".min.cjs"@)
        || ends_with_spec(n, ".bundle.js"@)
        || ends_with_spec(n, ".min.css"@)
}

/// Lock files and OS clutter.
pub open spec fn is_junk_name(n: Seq<char>) -> bool {
    n == "package-lock.json"@
        || n == "yarn.lock"@
        || n == "pnpm-lock.yaml"@
        || n == "cargo.lock"@
        || n == "composer.lock"@
        || n == "go.sum"@
        || n == ".ds_store"@
        || n == "thumbs.db"@
}

/// Vendor, build-output, VCS and test-fixture directories, written as
/// `/name/` segments.
pub open spec fn has_skipped_segment(padded: Seq<char>) -> bool {
    contains_spec(padded, "/node_modules/"@)
        || contains_spec(padded, "/.git/"@)
        || contains_spec(padded, "/dist/"@)
        || contains_spec(padded, "/build/"@)
        || contains_spec(padded, "/target/"@)
        || contains_spec(padded, "/.vs/"@)
        || contains_spec(padded, "/bin/"@)
        || contains_spec(padded, "/obj/"@)
        || contains_spec(padded, "/test/"@)
        || contains_spec(padded, "/tests/"@)
        || contains_spec(padded, "/__tests__/"@)
        || contains_spec(padded, "/spec/"@)
        || contains_spec(padded, "/specs/"@)
        || contains_spec(padded, "/fixtures/"@)
        || contains_spec(padded, "/.github/"@)
        || contains_spec(padded, "/coverage/"@)
        || contains_spec(padded, "/.nyc_output/"@)
        || contains_spec(padded, "/vendor/"@)
        || contains_spec(padded, "/third_party/"@)
        || contains_spec(padded, "/third-party/"@)
}

/// Backslashes turned into forward slashes.
pub open spec fn slashes_forward(s: Seq<char>) -> Seq<char> {
    Seq::new(s.len(), |i: int| if s[i] == '\\' { '/' } else { s[i] })
}

/// The path lower-cased (ASCII), with `/` separators, wrapped in slashes.
pub open spec fn padded_path(p: Seq<char>) -> Seq<char> {
    seq!['/'] + slashes_forward(ascii_lower_seq(p)) + seq!['/']
}

/// Whether a path is kept out of the vector store.
pub open spec fn skip_ingest(p: Seq<char>) -> bool {
    let name = match file_name_of(p) {
        Some(n) => ascii_lower_seq(n),
        None => Seq::empty(),
    };
    let ext = match path_extension(p) {
        Some(e) => ascii_lower_seq(e),
        None => Seq::empty(),
    };
    has_image_ext(p) || is_skipped_extension(ext) || is_minified_name(name) || is_junk_name(name)
        || has_skipped_segment(padded_path(p))
}

/// The directories never ingested, as `/name/` segments of the lower-cased,
/// `/`-separated path: dependency and vendor trees, build output, version
/// control and editor state, tests and fixtures, and coverage reports.
pub open spec fn skipped_directories() -> Seq<Seq<char>> {
    seq![
        "/node_modules/"@,
        "/.git/"@,
        "/dist/"@,
        "/build/"@,
        "/target/"@,
        "/.vs/"@,
        "/bin/"@,
        "/obj/"@,
        "/test/"@,
        "/tests/"@,
        "/__tests__/"@,
        "/spec/"@,
        "/specs/"@,
        "/fixtures/"@,
        "/.github/"@,
        "/coverage/"@,
        "/.nyc_output/"@,
        "/vendor/"@,
        "/third_party/"@,
        "/third-party/"@,
    ]
}

/// The extensions (lower-cased) of files never ingested: source maps and
/// stylesheets, fonts, images and media, archives, binaries, lock files.
pub open spec fn skipped_extensions() -> Seq<Seq<char>> {
    seq![
        "map"@,
        "css"@,
        "scss"@,
        "sass"@,
        "less"@,
        "woff"@,
        "woff2"@,
        "ttf"@,
        "otf"@,
        "eot"@,
        "ico"@,
        "svg"@,
        "gif"@,
        "webp"@,
        "bmp"@,
        "mp3"@,
        "mp4"@,
        "wav"@,
        "zip"@,
        "gz"@,
        "tar"@,
        "7z"@,
        "rar"@,
        "bin"@,
        "exe"@,
        "dll"@,
        "so"@,
        "dylib"@,
        "pdb"@,
        "lock"@,
        "sum"@,
        "png"@,
        "jpg"@,
        "jpeg"@,
    ]
}

/// The file names (lower-cased) never ingested: lock files and OS clutter.
pub open spec fn skipped_file_names() -> Seq<Seq<char>> {
    seq![
        "package-lock.json"@,
        "yarn.lock"@,
        "pnpm-lock.yaml"@,
        "cargo.lock"@,
        "composer.lock"@,
        "go.sum"@,
        ".ds_store"@,
        "thumbs.db"@,
    ]
}

/// The name endings (lower-cased) of minified or bundled assets.
pub open spec fn skipped_name_endings() -> Seq<Seq<char>> {
    seq![
        ".min.js"@,
        ".min.mjs"@,
        ".min.cjs"@,
        ".bundle.js"@,
        ".min.css"@,
    ]
}

/// Law: a path is skipped when its lower-cased, `/`-separated form has one
/// of the skipped directories as a segment, when its lower-cased extension
/// is a skipped one, when its lower-cased file name is a skipped one, or
/// when that name ends like a minified or bundled asset.
pub proof fn lemma_skipped_paths(p: Seq<char>)
    ensures
        forall|i: int| 0 <= i < skipped_directories().len() && contains_spec(padded_path(p), #[trigger] skipped_directories()[i])
            ==> skip_ingest(p),
        forall|i: int| 0 <= i < skipped_extensions().len() && (path_extension(p) matches Some(e) && ascii_lower_seq(e)
            == #[trigger] skipped_extensions()[i]) ==> skip_ingest(p),
        forall|i: int| 0 <= i < skipped_file_names().len() && (file_name_of(p) matches Some(n) && ascii_lower_seq(n)
            == #[trigger] skipped_file_names()[i]) ==> skip_ingest(p),
        forall|i: int| 0 <= i < skipped_name_endings().len() && (file_name_of(p) matches Some(n) && ends_with_spec(
            ascii_lower_seq(n), #[trigger] skipped_name_endings()[i])) ==> skip_ingest(p),
{
    let d = skipped_directories();
    assert forall|i: int| 0 <= i < d.len() && contains_spec(padded_path(p), #[trigger] d[i]) implies skip_ingest(p) by {
            if i == 0 {
                assert(d[0] == "/node_modules/"@);
            } else if i == 1 {
                assert(d[1] == "/.git/"@);
            } else if i == 2 {
                assert(d[2] == "/dist/"@);
            } else if i == 3 {
                assert(d[3] == "/build/"@);
            } else if i == 4 {
                assert(d[4] == "/target/"@);
            } else if i == 5 {
                assert(d[5] == "/.vs/"@);
            } else if i == 6 {
                assert(d[6] == "/bin/"@);
            } else if i == 7 {
                assert(d[7] == "/obj/"@);
            } else if i == 8 {
                assert(d[8] == "/test/"@);
            } else if i == 9 {
                assert(d[9] == "/tests/"@);
            } else if i == 10 {
                assert(d[10] == "/__tests__/"@);
            } else if i == 11 {
                assert(d[11] == "/spec/"@);
            } else if i == 12 {
                assert(d[12] == "/specs/"@);
            } else if i == 13 {
                assert(d[13] == "/fixtures/"@);
            } else if i == 14 {
                assert(d[14] == "/.github/"@);
            } else if i == 15 {
                assert(d[15] == "/coverage/"@);
            } else if i == 16 {
                assert(d[16] == "/.nyc_output/"@);
            } else if i == 17 {
                assert(d[17] == "/vendor/"@);
            } else if i == 18 {
                assert(d[18] == "/third_party/"@);
            } else if i == 19 {
                assert(d[19] == "/third-party/"@);
            }
    }
    let x = skipped_extensions();
    assert forall|i: int| 0 <= i < x.len() && (path_extension(p) matches Some(e) && ascii_lower_seq(e) == #[trigger] x[i])
        implies skip_ingest(p) by {
            if i == 0 {
                assert(x[0] == "map"@);
            } else if i == 1 {
                assert(x[1] == "css"@);
            } else if i == 2 {
                assert(x[2] == "scss"@);
            } else if i == 3 {
                assert(x[3] == "sass"@);
            } else if i == 4 {
                assert(x[4] == "less"@);
            } else if i == 5 {
                assert(x[5] == "woff"@);
            } else if i == 6 {
                assert(x[6] == "woff2"@);
            } else if i == 7 {
                assert(x[7] == "ttf"@);
            } else if i == 8 {
                assert(x[8] == "otf"@);
            } else if i == 9 {
                assert(x[9] == "eot"@);
            } else if i == 10 {
                assert(x[10] == "ico"@);
            } else if i == 11 {
                assert(x[11] == "svg"@);
            } else if i == 12 {
                assert(x[12] == "gif"@);
            } else if i == 13 {
                assert(x[13] == "webp"@);
            } else if i == 14 {
                assert(x[14] == "bmp"@);
            } else if i == 15 {
                assert(x[15] == "mp3"@);
            } else if i == 16 {
                assert(x[16] == "mp4"@);
            } else if i == 17 {
                assert(x[17] == "wav"@);
            } else if i == 18 {
                assert(x[18] == "zip"@);
            } else if i == 19 {
                assert(x[19] == "gz"@);
            } else if i == 20 {
                assert(x[20] == "tar"@);
            } else if i == 21 {
                assert(x[21] == "7z"@);
            } else if i == 22 {
                assert(x[22] == "rar"@);
            } else if i == 23 {
                assert(x[23] == "bin"@);
            } else if i == 24 {
                assert(x[24] == "exe"@);
            } else if i == 25 {
                assert(x[25] == "dll"@);
            } else if i == 26 {
                assert(x[26] == "so"@);
            } else if i == 27 {
                assert(x[27] == "dylib"@);
            } else if i == 28 {
                assert(x[28] == "pdb"@);
            } else if i == 29 {
                assert(x[29] == "lock"@);
            } else if i == 30 {
                assert(x[30] == "sum"@);
            } else if i == 31 {
                assert(x[31] == "png"@);
            } else if i == 32 {
                assert(x[32] == "jpg"@);
            } else if i == 33 {
                assert(x[33] == "jpeg"@);
            }
    }
    let f = skipped_file_names();
    assert forall|i: int| 0 <= i < f.len() && (file_name_of(p) matches Some(n) && ascii_lower_seq(n) == #[trigger] f[i])
        implies skip_ingest(p) by {
            if i == 0 {
                assert(f[0] == "package-lock.json"@);
            } else if i == 1 {
                assert(f[1] == "yarn.lock"@);
            } else if i == 2 {
                assert(f[2] == "pnpm-lock.yaml"@);
            } else if i == 3 {
                assert(f[3] == "cargo.lock"@);
            } else if i == 4 {
                assert(f[4] == "composer.lock"@);
            } else if i == 5 {
                assert(f[5] == "go.sum"@);
            } else if i == 6 {
                assert(f[6] == ".ds_store"@);
            } else if i == 7 {
                assert(f[7] == "thumbs.db"@);
            }
    }
    let m = skipped_name_endings();
    assert forall|i: int| 0 <= i < m.len() && (file_name_of(p) matches Some(n) && ends_with_spec(ascii_lower_seq(n), #[trigger] m[i]))
        implies skip_ingest(p) by {
            if i == 0 {
                assert(m[0] == ".min.js"@);
            } else if i == 1 {
                assert(m[1] == ".min.mjs"@);
            } else if i == 2 {
                assert(m[2] == ".min.cjs"@);
            } else if i == 3 {
                assert(m[3] == ".bundle.js"@);
            } else if i == 4 {
                assert(m[4] == ".min.css"@);
            }
    }
}

fn skipped_extension(e: &str) -> (r: bool)
    ensures
        r == is_skipped_extension(e@),
{
    str_eq(e, "map")
        || str_eq(e, "css")
        || str_eq(e, "scss")
        || str_eq(e, "sass")
        || str_eq(e, "less")
        || str_eq(e, "woff")
        || str_eq(e, "woff2")
        || str_eq(e, "ttf")
        || str_eq(e, "otf")
        || str_eq(e, "eot")
        || str_eq(e, "ico")
        || str_eq(e, "svg")
        || str_eq(e, "gif")
        || str_eq(e, "webp")
        || str_eq(e, "bmp")
        || str_eq(e, "mp3")
        || str_eq(e, "mp4")
        || str_eq(e, "wav")
        || str_eq(e, "zip")
        || str_eq(e, "gz")
        || str_eq(e, "tar")
        || str_eq(e, "7z")
        || str_eq(e, "rar")
        || str_eq(e, "bin")
        || str_eq(e, "exe")
        || str_eq(e, "dll")
        || str_eq(e, "so")
        || str_eq(e, "dylib")
        || str_eq(e, "pdb")
        || str_eq(e, "lock")
        || str_eq(e, "sum")
}

fn minified_name(n: &Vec<char>) -> (r: bool)
    ensures
        r == is_minified_name(n@),
{
    ends_with_chars(n, &chars_of(".min.js"))
        || ends_with_chars(n, &chars_of(".min.mjs"))
        || ends_with_chars(n, &chars_of(".min.cjs"))
        || ends_with_chars(n, &chars_of(".bundle.js"))
        || ends_with_chars(n, &chars_of(".min.css"))
}

fn junk_name(n: &str) -> (r: bool)
    ensures
        r == is_junk_name(n@),
{
    str_eq(n, "package-lock.json")
        || str_eq(n, "yarn.lock")
        || str_eq(n, "pnpm-lock.yaml")
        || str_eq(n, "cargo.lock")
        || str_eq(n, "composer.lock")
        || str_eq(n, "go.sum")
        || str_eq(n, ".ds_store")
        || str_eq(n, "thumbs.db")
}

fn skipped_segment(padded: &Vec<char>) -> (r: bool)
    ensures
        r == has_skipped_segment(padded@),
{
    contains_chars(padded, &chars_of("/node_modules/"))
        || contains_chars(padded, &chars_of("/.git/"))
        || contains_chars(padded, &chars_of("/dist/"))
        || contains_chars(padded, &chars_of("/build/"))
        || contains_chars(padded, &chars_of("/target/"))
        || contains_chars(padded, &chars_of("/.vs/"))
        || contains_chars(padded, &chars_of("/bin/"))
        || contains_chars(padded, &chars_of("/obj/"))
        || contains_chars(padded, &chars_of("/test/"))
        || contains_chars(padded, &chars_of("/tests/"))
        || contains_chars(padded, &chars_of("/__tests__/"))
        || contains_chars(padded, &chars_of("/spec/"))
        || contains_chars(padded, &chars_of("/specs/"))
        || contains_chars(padded, &chars_of("/fixtures/"))
        || contains_chars(padded, &chars_of("/.github/"))
        || contains_chars(padded, &chars_of("/coverage/"))
        || contains_chars(padded, &chars_of("/.nyc_output/"))
        || contains_chars(padded, &chars_of("/vendor/"))
        || contains_chars(padded, &chars_of("/third_party/"))
        || contains_chars(padded, &chars_of("/third-party/"))
}

fn padded_path_chars(path: &str) -> (r: Vec<char>)
    ensures
        r@ == padded_path(path@),
{
    let lower = ascii_lower_chars(&chars_of(path));
    let mut r: Vec<char> = Vec::new();
    r.push('/');
    let mut i: usize = 0;
    while i < lower.len()
        invariant
            i <= lower.len(),
            lower@ == ascii_lower_seq(path@),
            r@ == seq!['/'] + slashes_forward(lower@).take(i as int),
        decreases lower.len() - i,
    {
        let c = lower[i];
        if c == '\\' {
            r.push('/');
        } else {
            r.push(c);
        }
        i += 1;
        assert(slashes_forward(lower@).take(i as int) =~= slashes_forward(lower@).take(i - 1).push(
            slashes_forward(lower@)[i - 1],
        ));
    }
    r.push('/');
    assert(slashes_forward(lower@).take(lower.len() as int) =~= slashes_forward(lower@));
    r
}

/// Whether a path is kept out of the vector store: images, assets,
/// archives, binaries, lock files, minified bundles, and anything under a
/// vendor, build-output, VCS or test-fixture directory. Backslashes count
/// as separators for the directory check only.
pub fn should_skip_ingest_path(path: &str) -> (r: bool)
    ensures
        r == skip_ingest(path@),
{
    if is_image_ext(path) {
        return true;
    }
    let name: Vec<char> = match path_file_name(path) {
        Some(n) => ascii_lower_chars(&chars_of(n.as_str())),
        None => Vec::new(),
    };
    let ext: Vec<char> = match path_extension_of(path) {
        Some(e) => ascii_lower_chars(&chars_of(e.as_str())),
        None => Vec::new(),
    };
    proof {
        assert(ascii_lower_seq(Seq::<char>::empty()) =~= Seq::<char>::empty());
    }
    let ext_s = string_of(&ext);
    if skipped_extension(ext_s.as_str()) {
        return true;
    }
    if minified_name(&name) {
        return true;
    }
    let name_s = string_of(&name);
    if junk_name(name_s.as_str()) {
        return true;
    }
    let padded = padded_path_chars(path);
    skipped_segment(&padded)
}

// ---------------------------------------------------------------------------
// Repository names from archive names
// ---------------------------------------------------------------------------

/// A path without a trailing `.zip` or `.ZIP`.
pub open spec fn without_zip_ext(s: Seq<char>) -> Seq<char> {
    if ends_with_spec(s, ".zip"@) || ends_with_spec(s, ".ZIP"@) {
        s.take(s.len() - 4)
    } else {
        s
    }
}

/// Removes a trailing `.zip` or `.ZIP` from a path.
pub fn strip_zip_ext(zip_path: &str) -> (r: String)
    ensures
        r@ == without_zip_ext(zip_path@),
{
    let v = chars_of(zip_path);
    proof {
        reveal_strlit(".zip");
        reveal_strlit(".ZIP");
    }
    if ends_with_chars(&v, &chars_of(".zip")) || ends_with_chars(&v, &chars_of(".ZIP")) {
        string_of_range(&v, 0, v.len() - 4)
    } else {
        string_of(&v)
    }
}

/// The repository name for an uploaded archive: its file name without a
/// trailing `.zip` in any case.
pub open spec fn zip_repo_name(p: Seq<char>) -> Seq<char> {
    let base = match file_name_of(p) {
        Some(n) => n,
        None => p,
    };
    if ends_with_spec(ascii_lower_seq(base), ".zip"@) {
        base.take(base.len() - 4)
    } else {
        base
    }
}

/// Default repository name for a codebase archive: the base name of the
/// archive without its `.zip` extension (compared case-insensitively).
pub fn repo_name_from_zip_filename(zip_filename: &str) -> (r: String)
    ensures
        r@ == zip_repo_name(zip_filename@),
{
    let base: Vec<char> = match path_file_name(zip_filename) {
        Some(n) => chars_of(n.as_str()),
        None => chars_of(zip_filename),
    };
    let lower = ascii_lower_chars(&base);
    proof {
        reveal_strlit(".zip");
    }
    if ends_with_chars(&lower, &chars_of(".zip")) {
        string_of_range(&base, 0, base.len() - 4)
    } else {
        string_of(&base)
    }
}

// ---------------------------------------------------------------------------
// Progress percentages
// ---------------------------------------------------------------------------

/// Integer division rounding toward zero (Rust's `/`), for a positive divisor.
pub open spec fn div_trunc(a: int, b: int) -> int {
    if a >= 0 {
        a / b
    } else {
        -((-a) / b)
    }
}

/// Clamps a percentage to `[0, 100]`.
pub open spec fn clamp_pct(x: int) -> int {
    if x < 0 {
        0
    } else if x > 100 {
        100
    } else {
        x
    }
}

pub open spec fn nonneg(x: int) -> int {
    if x > 0 {
        x
    } else {
        0
    }
}

pub open spec fn at_least_one(x: int) -> int {
    if x > 1 {
        x
    } else {
        1
    }
}

/// The percentage reached after batch `idx` (0-based) of `total`, mapped
/// into `[start, end]` and clamped to `[0, 100]`.
pub open spec fn batch_progress(start: int, end: int, idx: int, total: int) -> int {
    clamp_pct(start + div_trunc(nonneg(end - start) * (idx + 1), at_least_one(total)))
}

/// The intermediate values of `batch_progress` fit in an `i32`.
pub open spec fn batch_progress_fits(start: int, end: int, idx: int, total: int) -> bool {
    &&& i32::MIN <= end - start <= i32::MAX
    &&& idx + 1 <= i32::MAX
    &&& i32::MIN <= nonneg(end - start) * (idx + 1) <= i32::MAX
    &&& i32::MIN <= start + div_trunc(nonneg(end - start) * (idx + 1), at_least_one(total))
        <= i32::MAX
}

/// Maps a 0-based batch index into `[range_start, range_end]` percent.
pub fn map_batch_progress(range_start: i32, range_end: i32, batch_index: i32, total_batches: i32) -> (r: i32)
    requires
        batch_progress_fits(range_start as int, range_end as int, batch_index as int, total_batches as int),
    ensures
        r == batch_progress(range_start as int, range_end as int, batch_index as int, total_batches as int),
{
    let diff: i32 = range_end - range_start;
    let span: i32 = if diff > 0 {
        diff
    } else {
        0
    };
    let total: i32 = if total_batches > 1 {
        total_batches
    } else {
        1
    };
    let k: i32 = batch_index + 1;
    let prod: i32 = span * k;
    let p: i64 = prod as i64;
    let t: i64 = total as i64;
    let q64: i64 = if p >= 0 {
        p / t
    } else {
        -((-p) / t)
    };
    proof {
        assert(q64 == div_trunc(prod as int, total as int));
    }
    let q: i32 = q64 as i32;
    let v: i32 = range_start + q;
    if v < 0 {
        0
    } else if v > 100 {
        100
    } else {
        v
    }
}

proof fn lemma_div_trunc_monotone(a: int, b: int, t: int)
    requires
        a <= b,
        t > 0,
    ensures
        div_trunc(a, t) <= div_trunc(b, t),
{
    if a >= 0 {
        vstd::arithmetic::div_mod::lemma_div_is_ordered(a, b, t);
    } else if b < 0 {
        vstd::arithmetic::div_mod::lemma_div_is_ordered(-b, -a, t);
    } else {
        vstd::arithmetic::div_mod::lemma_div_pos_is_pos(-a, t);
        vstd::arithmetic::div_mod::lemma_div_pos_is_pos(b, t);
    }
}

/// Batch progress never goes backwards: a later batch index gives at least
/// the percentage of an earlier one.
pub proof fn lemma_batch_progress_monotone(start: int, end: int, i: int, j: int, total: int)
    requires
        i <= j,
    ensures
        batch_progress(start, end, i, total) <= batch_progress(start, end, j, total),
{
    let span = nonneg(end - start);
    assert(span * (i + 1) <= span * (j + 1)) by (nonlinear_arith)
        requires
            span >= 0,
            i <= j,
    ;
    lemma_div_trunc_monotone(span * (i + 1), span * (j + 1), at_least_one(total));
}

/// Within a band inside `[0, 100]`, every batch's percentage stays in the
/// band, and the last batch reaches its end.
pub proof fn lemma_batch_progress_in_band(start: int, end: int, idx: int, total: int)
    requires
        0 <= start <= end <= 100,
        0 <= idx < total,
    ensures
        start <= batch_progress(start, end, idx, total) <= end,
        batch_progress(start, end, total - 1, total) == end,
{
    let span = end - start;
    assert(0 <= span * (idx + 1) <= span * total) by (nonlinear_arith)
        requires
            span >= 0,
            0 <= idx < total,
    ;
    vstd::arithmetic::div_mod::lemma_div_is_ordered(span * (idx + 1), span * total, total);
    vstd::arithmetic::div_mod::lemma_div_pos_is_pos(span * (idx + 1), total);
    vstd::arithmetic::div_mod::lemma_div_multiples_vanish(span, total);
    assert(total * span == span * total) by (nonlinear_arith);
    assert(span * (total - 1 + 1) == span * total);
}

/// Overall archive progress for file `idx` of `total`: a sub-band of
/// `[20, 99]`.
pub open spec fn zip_bounds(idx: int, total: int) -> (int, int) {
    let n = at_least_one(total);
    let start = 20 + (80 * idx) / n;
    let end = 20 + (80 * (idx + 1)) / n;
    let e1 = if end > start + 1 {
        end
    } else {
        start + 1
    };
    (start, if e1 < 99 {
        e1
    } else {
        99
    })
}

/// Progress band of file `idx` of `total_files` within the post-extract
/// band `[20, 100)`.
pub fn zip_file_progress_bounds(idx: usize, total_files: usize) -> (r: (i32, i32))
    requires
        total_files <= i32::MAX,
        80 * (idx + 1) <= i32::MAX,
    ensures
        r.0 == zip_bounds(idx as int, total_files as int).0,
        r.1 == zip_bounds(idx as int, total_files as int).1,
{
    let n: i32 = if total_files > 1 {
        total_files as i32
    } else {
        1
    };
    let i: i32 = idx as i32;
    proof {
        vstd::arithmetic::div_mod::lemma_div_nonincreasing(80 * i as int, n as int);
        vstd::arithmetic::div_mod::lemma_div_nonincreasing(80 * (i + 1) as int, n as int);
        vstd::arithmetic::div_mod::lemma_div_pos_is_pos(80 * i as int, n as int);
    }
    let start: i32 = 20 + (80 * i) / n;
    let end: i32 = 20 + (80 * (i + 1)) / n;
    let e1: i32 = if end > start + 1 {
        end
    } else {
        start + 1
    };
    (start, if e1 < 99 {
        e1
    } else {
        99
    })
}

/// Each file's band lies in `[20, 99]`, is non-empty unless it starts at
/// 99, and later files start no earlier than earlier ones.
pub proof fn lemma_zip_bounds_in_band(i: int, j: int, total: int)
    requires
        0 <= i <= j < total,
    ensures
        20 <= zip_bounds(i, total).0 <= zip_bounds(i, total).1 <= 99,
        zip_bounds(i, total).0 < 99 ==> zip_bounds(i, total).0 < zip_bounds(i, total).1,
        zip_bounds(i, total).0 <= zip_bounds(j, total).0,
{
    assert(80 * i <= 80 * j);
    assert(0 <= 80 * i < 80 * total);
    vstd::arithmetic::div_mod::lemma_div_is_ordered(80 * i, 80 * j, total);
    vstd::arithmetic::div_mod::lemma_div_pos_is_pos(80 * i, total);
    assert((80 * i) / total < 80) by {
        vstd::arithmetic::div_mod::lemma_div_is_ordered(80 * i, 80 * total - 1, total);
        vstd::arithmetic::div_mod::lemma_div_multiples_vanish(80, total);
        vstd::arithmetic::div_mod::lemma_div_is_ordered(80 * total - 1, 80 * total, total);
        assert(total * 80 == 80 * total);
        vstd::arithmetic::div_mod::lemma_fundamental_div_mod(80 * total - 1, total);
        vstd::arithmetic::div_mod::lemma_mod_bound(80 * total - 1, total);
        assert((80 * total - 1) / total < 80) by (nonlinear_arith)
            requires
                total > 0,
                80 * total - 1 == total * ((80 * total - 1) / total) + (80 * total - 1) % total,
                0 <= (80 * total - 1) % total < total,
        ;
    }
    vstd::arithmetic::div_mod::lemma_div_is_ordered(80 * i, 80 * (i + 1), total);
}

// ---------------------------------------------------------------------------
// Character-bounded splitting
// ---------------------------------------------------------------------------

/// `text` cut into pieces of `m` characters, the last piece taking the
/// rest; the whole text as one piece when `m` is zero or the text fits.
pub open spec fn char_pieces(s: Seq<char>, m: nat) -> Seq<Seq<char>>
    decreases s.len(),
{
    if m == 0 || s.len() <= m {
        seq![s]
    } else {
        seq![s.take(m as int)] + char_pieces(s.skip(m as int), m)
    }
}

/// The concatenation of a sequence of texts.
pub open spec fn concat_all(parts: Seq<Seq<char>>) -> Seq<char>
    decreases parts.len(),
{
    if parts.len() == 0 {
        Seq::empty()
    } else {
        parts[0] + concat_all(parts.skip(1))
    }
}

/// Force-splits `text` into pieces of at most `max_chars` characters.
pub fn hard_split_chars(text: &str, max_chars: usize) -> (r: Vec<String>)
    ensures
        views(r@) == char_pieces(text@, max_chars as nat),
{
    let v = chars_of(text);
    let n = v.len();
    let mut out: Vec<String> = Vec::new();
    if max_chars == 0 || n <= max_chars {
        push_string(&mut out, string_of(&v));
        assert(views(out@) =~= char_pieces(text@, max_chars as nat));
        return out;
    }
    let m = max_chars;
    let mut i: usize = 0;
    assert(v@.skip(0) =~= v@);
    assert(views(out@) + char_pieces(v@.skip(0), m as nat) =~= char_pieces(v@, m as nat));
    while n - i > m
        invariant
            0 < m,
            i <= n,
            n == v@.len(),
            v@ == text@,
            views(out@) + char_pieces(v@.skip(i as int), m as nat) == char_pieces(v@, m as nat),
        decreases n - i,
    {
        let ghost rest = v@.skip(i as int);
        let piece = string_of_range(&v, i, i + m);
        let ghost before = views(out@);
        push_string(&mut out, piece);
        assert(rest.take(m as int) =~= v@.subrange(i as int, (i + m) as int));
        assert(rest.skip(m as int) =~= v@.skip((i + m) as int));
        assert(char_pieces(rest, m as nat) == seq![rest.take(m as int)] + char_pieces(
            rest.skip(m as int),
            m as nat,
        ));
        assert(views(out@) + char_pieces(v@.skip((i + m) as int), m as nat) =~= before
            + char_pieces(rest, m as nat));
        i = i + m;
    }
    let last = string_of_range(&v, i, n);
    let ghost before = views(out@);
    push_string(&mut out, last);
    assert(v@.skip(i as int) =~= v@.subrange(i as int, n as int));
    assert(views(out@) =~= before + char_pieces(v@.skip(i as int), m as nat));
    out
}

/// Splitting loses nothing: the pieces concatenate back to the text, and
/// with a positive bound every piece is non-empty (unless the text is) and
/// at most `m` characters long.
pub proof fn lemma_char_pieces_laws(s: Seq<char>, m: nat)
    ensures
        concat_all(char_pieces(s, m)) == s,
        m > 0 ==> forall|k: int|
            0 <= k < char_pieces(s, m).len() ==> #[trigger] char_pieces(s, m)[k].len() <= m,
        s.len() > 0 ==> forall|k: int|
            0 <= k < char_pieces(s, m).len() ==> #[trigger] char_pieces(s, m)[k].len() > 0,
    decreases s.len(),
{
    if m == 0 || s.len() <= m {
        assert(concat_all(seq![s]) == s + concat_all(seq![s].skip(1)));
        assert(seq![s].skip(1) =~= Seq::<Seq<char>>::empty());
        assert(s + Seq::<char>::empty() =~= s);
    } else {
        let rest = s.skip(m as int);
        lemma_char_pieces_laws(rest, m);
        let p = char_pieces(s, m);
        assert(p == seq![s.take(m as int)] + char_pieces(rest, m));
        assert(p.skip(1) =~= char_pieces(rest, m));
        assert(s.take(m as int) + rest =~= s);
        assert forall|k: int| 0 <= k < p.len() implies #[trigger] p[k].len() <= m by {
            if k > 0 {
                assert(p[k] == char_pieces(rest, m)[k - 1]);
            }
        }
        assert forall|k: int| 0 <= k < p.len() implies #[trigger] p[k].len() > 0 by {
            if k > 0 {
                assert(p[k] == char_pieces(rest, m)[k - 1]);
            }
        }
    }
}


// ---------------------------------------------------------------------------
// Upload bookkeeping
// ---------------------------------------------------------------------------

/// The collection an upload goes to: the one asked for, else `general`.
pub open spec fn upload_collection_spec(collection: Option<Seq<char>>) -> Seq<char> {
    match collection {
        Some(c) => c,
        None => "general"@,
    }
}

pub fn upload_collection(collection: Option<&str>) -> (r: String)
    ensures
        r@ == upload_collection_spec(match collection {
            Some(c) => Some(c@),
            None => None,
        }),
{
    match collection {
        Some(c) => c.to_owned(),
        None => "general".to_owned(),
    }
}

/// The repository name a zip upload embeds under: for the `codebase`
/// collection, when none (or a blank one) was given, the archive's name
/// without `.zip` (when the archive is named and that name is not empty);
/// otherwise the name given.
pub open spec fn upload_repo_spec(collection: Seq<char>, repo_name: Option<Seq<char>>, zip_filename: Option<Seq<char>>) -> Option<Seq<char>> {
    let needs_default = match repo_name {
        Some(s) => trim_spec(s).len() == 0,
        None => true,
    };
    if collection == "codebase"@ && needs_default {
        match zip_filename {
            Some(z) => if z.len() > 0 && zip_repo_name(z).len() > 0 {
                Some(zip_repo_name(z))
            } else {
                repo_name
            },
            None => repo_name,
        }
    } else {
        repo_name
    }
}

pub fn upload_repo_name(collection: &str, repo_name: Option<String>, zip_filename: Option<&str>) -> (r: Option<String>)
    ensures
        opt_view(r) == upload_repo_spec(collection@, opt_view(repo_name), match zip_filename {
            Some(z) => Some(z@),
            None => None,
        }),
{
    let needs_default = match &repo_name {
        Some(s) => trim_str(s.as_str()).as_str().is_empty(),
        None => true,
    };
    if str_eq(collection, "codebase") && needs_default {
        match zip_filename {
            Some(z) => {
                if !z.is_empty() {
                    let d = repo_name_from_zip_filename(z);
                    if !d.as_str().is_empty() {
                        return Some(d);
                    }
                }
                repo_name
            },
            None => repo_name,
        }
    } else {
        repo_name
    }
}

/// The message a zip upload ends with: how many chunks were processed and,
/// when files failed, how many and why (joined by `; `).
pub open spec fn zip_summary_spec(processed: nat, errors: Seq<Seq<char>>) -> Seq<char> {
    if errors.len() == 0 {
        "Processed "@ + digits(processed) + " file(s) from zip."@
    } else {
        "Processed "@ + digits(processed) + " file(s); "@ + digits(errors.len()) + " error(s): "@ + join(errors, "; "@)
    }
}

pub fn zip_upload_summary(processed: usize, errors: &Vec<String>) -> (r: String)
    ensures
        r@ == zip_summary_spec(processed as nat, views(errors@)),
{
    let n = string_of(&digits_string(processed as u64));
    let head = concat_str("Processed ", n.as_str());
    if errors.len() == 0 {
        concat_str(head.as_str(), " file(s) from zip.")
    } else {
        let k = string_of(&digits_string(errors.len() as u64));
        let a = concat_str(head.as_str(), " file(s); ");
        let b = concat_str(a.as_str(), k.as_str());
        let c = concat_str(b.as_str(), " error(s): ");
        let joined = join_strings(errors, "; ");
        concat_str(c.as_str(), joined.as_str())
    }
}

/// `i32::saturating_sub(a, b)` for `b >= 0`.
pub open spec fn sat_sub_i32(a: int, b: int) -> int {
    if a - b < i32::MIN {
        i32::MIN as int
    } else {
        a - b
    }
}

/// `i32::saturating_add(a, b)` for `b >= 0`.
pub open spec fn sat_add_i32(a: int, b: int) -> int {
    if a + b > i32::MAX {
        i32::MAX as int
    } else {
        a + b
    }
}

/// The progress shown while a file is read and while it is chunked, before
/// its embedding range starts at `range_start`: five points earlier (at
/// least 5, at most `range_start`), then two points later (at most
/// `range_start`).
pub open spec fn stage_percents_spec(range_start: int) -> (int, int) {
    let sub = sat_sub_i32(range_start, 5);
    let load = if sub >= 5 { sub } else { 5 };
    let load = if load <= range_start { load } else { range_start };
    let added = sat_add_i32(load, 2);
    (load, if added <= range_start { added } else { range_start })
}

pub fn ingest_stage_percents(range_start: i32) -> (r: (i32, i32))
    ensures
        (r.0 as int, r.1 as int) == stage_percents_spec(range_start as int),
{
    let sub = if range_start < i32::MIN + 5 { i32::MIN } else { range_start - 5 };
    let load = if sub >= 5 { sub } else { 5 };
    let load = if load <= range_start { load } else { range_start };
    let added = if load > i32::MAX - 2 { i32::MAX } else { load + 2 };
    (load, if added <= range_start { added } else { range_start })
}

} // verus!
