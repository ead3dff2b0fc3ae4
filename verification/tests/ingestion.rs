use mcp_nano::embedders::{clamp_text_for_tokenize, MAX_TOKENIZE_CHARS};
use mcp_nano::ingest::{
    hard_split_chars, is_image_ext, map_batch_progress, repo_name_from_zip_filename,
    should_skip_ingest_path, strip_zip_ext, zip_file_progress_bounds, upload_repo_name,
    zip_upload_summary, ingest_stage_percents,
};

#[test]
fn strip_zip_ext_removes_zip_suffix() {
    assert_eq!(strip_zip_ext("/tmp/foo.zip"), "/tmp/foo");
    assert_eq!(strip_zip_ext("/tmp/foo.tar"), "/tmp/foo.tar");
}

#[test]
fn repo_name_from_zip_filename_strips_extension() {
    assert_eq!(repo_name_from_zip_filename("OptionsPricing-main.zip"), "OptionsPricing-main");
    assert_eq!(repo_name_from_zip_filename("MyRepo.ZIP"), "MyRepo");
    assert_eq!(repo_name_from_zip_filename("/path/to/repo.zip"), "repo");
    assert_eq!(repo_name_from_zip_filename("noext"), "noext");
}

#[test]
fn is_image_ext_detects_image_extensions() {
    assert!(is_image_ext("photo.png"));
    assert!(is_image_ext("photo.JPG"));
    assert!(is_image_ext("photo.jpeg"));
    assert!(!is_image_ext("doc.pdf"));
    assert!(!is_image_ext("noext"));
}

#[test]
fn map_batch_progress_stays_within_range_and_is_monotonic() {
    let start = 10;
    let end = 95;
    let mut prev = start - 1;
    for i in 0..5 {
        let pct = map_batch_progress(start, end, i, 5);
        assert!(pct >= start, "pct {pct} < start {start}");
        assert!(pct <= end, "pct {pct} > end {end}");
        assert!(pct >= prev, "progress decreased: {prev} -> {pct}");
        prev = pct;
    }
    assert_eq!(map_batch_progress(10, 95, 4, 5), 95);
}

#[test]
fn map_batch_progress_never_resets_below_prior_milestone() {
    let milestones = [5, 10];
    let mut last = 0;
    for m in milestones {
        assert!(m >= last);
        last = m;
    }
    for i in 0..8 {
        let pct = map_batch_progress(10, 95, i, 8);
        assert!(pct >= 10, "embed batch dropped below 10%: {pct}");
        assert!(pct >= last);
        last = pct;
    }
    assert!(last <= 95);
}

#[test]
fn zip_file_progress_bounds_cover_post_extract_band() {
    let (s0, e0) = zip_file_progress_bounds(0, 4);
    let (s3, e3) = zip_file_progress_bounds(3, 4);
    assert_eq!(s0, 20);
    assert!(e0 > s0);
    assert!(s3 >= e0 || s3 >= 20);
    assert!(e3 <= 99);
    assert!(s3 < e3);
}

#[test]
fn should_skip_ingest_junk_assets() {
    assert!(should_skip_ingest_path("wwwroot/chart.umd.min.js.map"));
    assert!(should_skip_ingest_path("bootstrap.min.css.map"));
    assert!(should_skip_ingest_path("open-iconic.woff"));
    assert!(should_skip_ingest_path("favicon.ico"));
    assert!(should_skip_ingest_path("lib/jquery.min.js"));
    assert!(should_skip_ingest_path("styles.min.css"));
    assert!(!should_skip_ingest_path("src/OptionsService.cs"));
    assert!(!should_skip_ingest_path("README.md"));
    assert!(!should_skip_ingest_path("app.js"));
}

#[test]
fn should_skip_test_and_fixture_paths() {
    assert!(should_skip_ingest_path(
        "Chart.js-4.5.1/test/fixtures/controller.radar/radius/indexable.js"
    ));
    assert!(should_skip_ingest_path("repo/tests/unit/foo.rs"));
    assert!(should_skip_ingest_path("pkg/__tests__/button.tsx"));
    assert!(should_skip_ingest_path("lib/spec/helpers.js"));
    assert!(should_skip_ingest_path("proj/.github/workflows/ci.yml"));
    assert!(should_skip_ingest_path(r"repo\test\fixtures\a.js"));
    assert!(!should_skip_ingest_path("Chart.js-4.5.1/src/core/core.controller.js"));
    assert!(!should_skip_ingest_path("src/services/ingestion_service.rs"));
}

#[test]
fn hard_split_chars_respects_char_boundaries() {
    let s = "a😀b😀c";
    let parts = hard_split_chars(s, 2);
    assert!(parts.len() >= 2);
    let rejoined: String = parts.concat();
    assert_eq!(rejoined, s);
    for p in &parts {
        assert!(p.chars().count() <= 2, "piece too long: {p:?}");
    }
}

#[test]
fn map_batch_progress_clamps_and_advances() {
    assert_eq!(map_batch_progress(0, 100, 0, 4), 25);
    assert_eq!(map_batch_progress(0, 100, 3, 4), 100);
    assert_eq!(map_batch_progress(50, 50, 0, 1), 50);
    assert_eq!(map_batch_progress(10, 20, 0, 0), 20);
}

#[test]
fn clamp_text_for_tokenize_limits_chars() {
    let long = "x".repeat(50_000);
    let clamped = clamp_text_for_tokenize(&long);
    assert!(clamped.chars().count() <= MAX_TOKENIZE_CHARS);
    assert_eq!(clamp_text_for_tokenize("short"), "short");
}

#[test]
fn map_batch_progress_truncates_toward_zero_and_clamps() {
    // A negative batch index rounds toward zero, then clamps into [0, 100].
    assert_eq!(map_batch_progress(10, 20, -3, 4), 5);
    assert_eq!(map_batch_progress(0, 100, -3, 2), 0);
    assert_eq!(map_batch_progress(90, 200, 9, 10), 100);
    // A reversed band has no span.
    assert_eq!(map_batch_progress(40, 10, 3, 4), 40);
}

#[test]
fn zip_file_progress_bounds_exact_values() {
    assert_eq!(zip_file_progress_bounds(0, 4), (20, 40));
    assert_eq!(zip_file_progress_bounds(3, 4), (80, 99));
    assert_eq!(zip_file_progress_bounds(0, 0), (20, 99));
    assert_eq!(zip_file_progress_bounds(79, 80), (99, 99));
    assert_eq!(zip_file_progress_bounds(0, 200), (20, 21));
}

#[test]
fn hard_split_chars_edge_cases() {
    assert_eq!(hard_split_chars("abcdefg", 3), vec!["abc", "def", "g"]);
    assert_eq!(hard_split_chars("abcdef", 3), vec!["abc", "def"]);
    assert_eq!(hard_split_chars("abc", 0), vec!["abc"]);
    assert_eq!(hard_split_chars("", 5), vec![""]);
}

#[test]
fn should_skip_lock_files_and_images_in_any_case() {
    assert!(should_skip_ingest_path("repo/Cargo.lock"));
    assert!(should_skip_ingest_path("web/yarn.lock"));
    assert!(should_skip_ingest_path("shots/PHOTO.PNG"));
    assert!(should_skip_ingest_path("node_modules/x/index.js"));
    assert!(!should_skip_ingest_path("src/testing.rs"));
}

#[test]
fn repo_name_and_zip_ext_other_cases() {
    assert_eq!(repo_name_from_zip_filename("dir/Repo.Zip"), "Repo");
    assert_eq!(strip_zip_ext("foo.Zip"), "foo.Zip");
    assert_eq!(strip_zip_ext("foo.ZIP"), "foo");
}

#[test]
fn clamp_text_for_tokenize_counts_characters() {
    let long = "é".repeat(MAX_TOKENIZE_CHARS + 3);
    let clamped = clamp_text_for_tokenize(&long);
    assert_eq!(clamped.chars().count(), MAX_TOKENIZE_CHARS);
}

#[test]
fn upload_collection_defaults_to_general() {
    assert_eq!(mcp_nano::ingest::upload_collection(None), "general");
    assert_eq!(mcp_nano::ingest::upload_collection(Some("codebase")), "codebase");
}

#[test]
fn codebase_zip_upload_defaults_repo_name_to_archive_name() {
    assert_eq!(upload_repo_name("codebase", None, Some("my-repo.zip")).as_deref(), Some("my-repo"));
    assert_eq!(upload_repo_name("codebase", Some("  ".to_string()), Some("x.ZIP")).as_deref(), Some("x"));
    assert_eq!(upload_repo_name("codebase", Some("given".to_string()), Some("x.zip")).as_deref(), Some("given"));
    assert_eq!(upload_repo_name("general", None, Some("x.zip")), None);
    assert_eq!(upload_repo_name("codebase", None, None), None);
}

#[test]
fn zip_upload_summary_reports_errors() {
    assert_eq!(zip_upload_summary(12, &vec![]), "Processed 12 file(s) from zip.");
    assert_eq!(
        zip_upload_summary(3, &vec!["a.py: bad".to_string(), "b.rs: worse".to_string()]),
        "Processed 3 file(s); 2 error(s): a.py: bad; b.rs: worse"
    );
}

#[test]
fn ingest_stage_percents_stay_below_range_start() {
    assert_eq!(ingest_stage_percents(40), (35, 37));
    assert_eq!(ingest_stage_percents(8), (5, 7));
    assert_eq!(ingest_stage_percents(3), (3, 3));
    assert_eq!(ingest_stage_percents(i32::MIN), (i32::MIN, i32::MIN));
}
