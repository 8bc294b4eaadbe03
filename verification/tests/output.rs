use media_convert::container::Container;
use media_convert::output::{
    default_output, hls_output_path, hls_output_under_root, output_is_filepath, output_path,
    sum_file_sizes, validate_output, web_output_path, web_output_under_root, OutputError,
    OutputEvent, OutputStep, OutputValidation,
};

#[test]
fn absolute_directory_becomes_sibling_with_suffix() {
    let out = default_output("/tmp/x/library", false, Container::Mkv);
    assert_eq!(out, "/tmp/x/library-converted");
}

#[test]
fn file_source_stays_in_same_directory_with_suffix() {
    let out = default_output("/tmp/x/library/movie.mp4", true, Container::Mkv);
    assert_eq!(out, "/tmp/x/library/movie-converted.mkv");
}

#[test]
fn relative_directory_stays_relative() {
    let out = default_output("movies", false, Container::Mkv);
    assert_eq!(out, "movies-converted");
}

#[test]
fn nested_relative_directory_keeps_parent() {
    let out = default_output("a/b/library", false, Container::Mkv);
    assert_eq!(out, "a/b/library-converted");
}

#[test]
fn root_path_falls_back_to_subdirectory() {
    let out = default_output("/", false, Container::Mkv);
    assert_eq!(out, "/converted");
}

#[test]
fn single_segment_absolute_path_stays_under_root() {
    let out = default_output("/library", false, Container::Mkv);
    assert_eq!(out, "/library-converted");
}

#[test]
fn default_output_without_a_usable_name() {
    assert_eq!(default_output(".", false, Container::Mp4), "./converted");
    assert_eq!(default_output("a/..", false, Container::Mp4), "a/../converted");
    assert_eq!(default_output("a/..", true, Container::Mp4), "a/..");
    assert_eq!(default_output(".hidden", true, Container::Mp4), ".hidden-converted.mp4");
    assert_eq!(default_output("a.b.c", true, Container::Mkv), "a.b-converted.mkv");
}

fn step(expected: Option<u64>, event: OutputEvent) -> OutputStep {
    validate_output("/out", expected, 77, event)
}

#[test]
fn validate_output_creates_missing_directory() {
    let s = step(None, OutputEvent::Found { exists: false, is_dir: false });
    assert!(matches!(s, OutputStep::Create));
    let s = step(None, OutputEvent::Created(Ok(())));
    assert!(matches!(s, OutputStep::Probe(p) if p == "/out/.media-convert-write-probe-77"));
    let s = step(None, OutputEvent::Probed(Ok(())));
    assert!(matches!(s, OutputStep::Measure));
    let s = step(None, OutputEvent::Measured(Ok(1)));
    assert!(matches!(s, OutputStep::Accept(v) if v.warnings.is_empty()));
}

#[test]
fn validate_output_accepts_existing_directory() {
    let s = step(None, OutputEvent::Found { exists: true, is_dir: true });
    assert!(matches!(s, OutputStep::Probe(p) if p == "/out/.media-convert-write-probe-77"));
    let s = step(None, OutputEvent::Measured(Ok(0)));
    assert!(matches!(s, OutputStep::Accept(v) if v.warnings.is_empty()));
}

#[test]
fn validate_output_rejects_path_that_is_a_file() {
    let s = step(None, OutputEvent::Found { exists: true, is_dir: false });
    match s {
        OutputStep::Refuse(e) => {
            assert!(e.message("/out").contains("not a directory"));
            assert_eq!(
                e.full_message("/out"),
                "output path exists and is not a directory: /out"
            );
        }
        _ => panic!("unexpected step"),
    }
}

#[test]
fn validate_output_warns_when_source_exceeds_free_space() {
    let huge = u64::MAX / 2;
    match step(Some(huge), OutputEvent::Measured(Ok(1536))) {
        OutputStep::Accept(v) => assert_eq!(
            v.warnings,
            ["Output filesystem has only 1.50 KiB free, but source files total 8388608.00 TiB. \
              Re-encoding usually shrinks files, but this could be tight."]
        ),
        _ => panic!("unexpected step"),
    }
}

#[test]
fn validate_output_no_warnings_when_expected_size_fits() {
    for free in [1024u64, 1025, u64::MAX] {
        match step(Some(1024), OutputEvent::Measured(Ok(free))) {
            OutputStep::Accept(v) => assert!(v.warnings.is_empty()),
            _ => panic!("unexpected step"),
        }
    }
}

#[test]
fn validate_output_passes_on_what_the_system_said() {
    match step(None, OutputEvent::Created(Err("no".into()))) {
        OutputStep::Refuse(e) => {
            assert!(matches!(e, OutputError::CannotCreate(_)));
            assert_eq!(e.message("/out"), "could not create output directory /out");
            assert_eq!(e.full_message("/out"), "could not create output directory /out: no");
        }
        _ => panic!("unexpected step"),
    }
    match step(None, OutputEvent::Probed(Err("read-only".into()))) {
        OutputStep::Refuse(e) => {
            assert!(matches!(e, OutputError::NotWritable(_)));
            assert_eq!(
                e.full_message("/out"),
                "output directory is not writable: /out: read-only"
            );
        }
        _ => panic!("unexpected step"),
    }
    match step(Some(9), OutputEvent::Measured(Err("gone".into()))) {
        OutputStep::Accept(v) => {
            assert_eq!(v.warnings, ["Could not query disk space on /out: gone"])
        }
        _ => panic!("unexpected step"),
    }
    assert!(OutputValidation::default().warnings.is_empty());
}

#[test]
fn sum_file_sizes_totals_existing_files() {
    assert_eq!(sum_file_sizes(&[Some(100), Some(50)]), 150);
    assert_eq!(sum_file_sizes(&[]), 0);
    assert_eq!(sum_file_sizes(&[Some(u64::MAX), None, Some(0)]), u64::MAX);
}

#[test]
fn sum_file_sizes_skips_missing_files() {
    assert_eq!(sum_file_sizes(&[Some(42), None]), 42);
}

#[test]
fn web_output_path_swaps_extension_with_dot_web_mp4() {
    let out = web_output_path("/tv/Show/S01/episode.mkv");
    assert_eq!(out, "/tv/Show/S01/episode.web.mp4");
}

#[test]
fn web_output_path_works_for_mp4_avi_and_other_sources() {
    assert_eq!(web_output_path("/tv/a.mp4"), "/tv/a.web.mp4");
    assert_eq!(web_output_path("/tv/a.avi"), "/tv/a.web.mp4");
    assert_eq!(web_output_path("/tv/a.mov"), "/tv/a.web.mp4");
}

#[test]
fn web_output_path_preserves_dotted_basenames() {
    let out = web_output_path("/tv/Game.of.Thrones.S01E01.Winter.is.Coming.1080p.x265.mkv");
    assert_eq!(
        out,
        "/tv/Game.of.Thrones.S01E01.Winter.is.Coming.1080p.x265.web.mp4"
    );
}

#[test]
fn web_output_path_keeps_sibling_directory() {
    let nested = "/tmp/x/Show/S01";
    let out = web_output_path("/tmp/x/Show/S01/episode.mkv");
    let out = std::path::Path::new(&out);
    assert_eq!(out.parent().unwrap(), std::path::Path::new(nested));
    assert_eq!(out.file_name().unwrap(), "episode.web.mp4");
}

#[test]
fn web_output_path_falls_back_to_current_dir_for_bare_filename() {
    let out = web_output_path("episode.mkv");
    assert_eq!(out, "episode.web.mp4");
}

#[test]
fn bundle_paths_without_a_stem() {
    assert_eq!(web_output_path("/"), "web.mp4");
    assert_eq!(web_output_path("."), "web.mp4");
    assert_eq!(web_output_path("a/.."), "a/web.mp4");
    assert_eq!(hls_output_path("/"), "hls");
    assert_eq!(hls_output_path("a/b/.."), "a/b/hls");
    assert_eq!(web_output_under_root("/r", "x/.."), "/r/x/web.mp4");
    assert_eq!(hls_output_under_root("/r", ""), "/r/hls");
}

#[test]
fn hls_output_path_creates_dot_hls_sibling_directory() {
    let out = hls_output_path("/tv/Show/S01/episode.mkv");
    assert_eq!(out, "/tv/Show/S01/episode.hls");
}

#[test]
fn hls_output_path_preserves_dotted_basenames() {
    let out = hls_output_path("/tv/Game.of.Thrones.S01E01.Winter.is.Coming.1080p.x265.mkv");
    assert_eq!(
        out,
        "/tv/Game.of.Thrones.S01E01.Winter.is.Coming.1080p.x265.hls"
    );
}

#[test]
fn hls_output_path_falls_back_to_current_dir_for_bare_filename() {
    let out = hls_output_path("episode.mkv");
    assert_eq!(out, "episode.hls");
}

#[test]
fn nonexistent_with_extension_is_filepath() {
    assert!(output_is_filepath("/tmp/no/such/out.mkv", false, false));
    assert!(output_is_filepath("relative.mp4", false, false));
}

#[test]
fn nonexistent_without_extension_is_directory() {
    assert!(!output_is_filepath("/tmp/no/such/out", false, false));
    assert!(!output_is_filepath("converted", false, false));
}

#[test]
fn trailing_slash_means_directory_even_with_dot() {
    assert!(!output_is_filepath("/tmp/foo/", false, false));
    assert!(!output_is_filepath("/tmp/foo.mkv/", false, false));
}

#[test]
fn existing_file_is_filepath() {
    assert!(output_is_filepath("/tmp/x/existing.mkv", false, true));
    assert!(output_is_filepath("/tmp/x/existing", false, true));
}

#[test]
fn existing_directory_is_not_filepath() {
    assert!(!output_is_filepath("/tmp/x", true, false));
    assert!(!output_is_filepath("/tmp/x.mkv", true, false));
}

#[test]
fn output_path_uses_mkv_extension_for_mkv_container() {
    let out = output_path("/out", "show/episode.mp4", Container::Mkv);
    assert_eq!(out, "/out/show/episode.mkv");
}

#[test]
fn output_path_uses_mp4_extension_for_mp4_container() {
    let out = output_path("/out", "show/episode.mkv", Container::Mp4);
    assert_eq!(out, "/out/show/episode.mp4");
}

#[test]
fn web_output_under_root_mirrors_source_tree_and_swaps_extension() {
    let out = web_output_under_root("/web", "Show/S01/ep1.mkv");
    assert_eq!(out, "/web/Show/S01/ep1.web.mp4");
}

#[test]
fn web_output_under_root_preserves_dotted_basenames() {
    let out = web_output_under_root("/web", "Show/Game.of.Thrones.S01E01.1080p.x265.mkv");
    assert_eq!(out, "/web/Show/Game.of.Thrones.S01E01.1080p.x265.web.mp4");
}

#[test]
fn web_output_under_root_handles_bare_filename() {
    let out = web_output_under_root("/web", "ep1.mkv");
    // An empty parent leaves a slash behind the root.
    assert_eq!(std::path::Path::new(&out), std::path::Path::new("/web/ep1.web.mp4"));
    assert_eq!(out, "/web/ep1.web.mp4");
}

#[test]
fn hls_output_under_root_mirrors_source_tree_to_dot_hls_dirs() {
    let out = hls_output_under_root("/hls", "Show/S01/ep1.mkv");
    assert_eq!(out, "/hls/Show/S01/ep1.hls");
}

#[test]
fn hls_output_under_root_preserves_dotted_basenames() {
    let out = hls_output_under_root("/hls", "Show/Game.of.Thrones.S01E01.1080p.x265.mkv");
    assert_eq!(out, "/hls/Show/Game.of.Thrones.S01E01.1080p.x265.hls");
}
