use media_convert::scan::{
    discover_subtitles, find_videos, is_hls_bundle_dir, is_video, is_web_sibling, known_extensions,
    subtitle_dir, DirItem, WalkEntry,
};

fn file(path: &str, depth: usize) -> WalkEntry {
    WalkEntry {
        path: path.into(),
        depth,
        is_dir: false,
        is_file: true,
    }
}

fn folder(path: &str, depth: usize) -> WalkEntry {
    WalkEntry {
        path: path.into(),
        depth,
        is_dir: true,
        is_file: false,
    }
}

fn items(dir: &str, names: &[&str]) -> Vec<DirItem> {
    names
        .iter()
        .map(|n| DirItem {
            path: format!("{dir}/{n}"),
            is_file: true,
        })
        .collect()
}

#[test]
fn is_video_recognises_known_extensions() {
    assert!(is_video("clip.mkv"));
    assert!(is_video("clip.MP4"));
    assert!(is_video("/abs/path/movie.webm"));
    for e in known_extensions() {
        assert!(is_video(&format!("a.{e}")));
        assert!(is_video(&format!("a.{}", e.to_uppercase())));
    }
    assert_eq!(known_extensions().len(), 12);
}

#[test]
fn is_video_rejects_others() {
    assert!(!is_video("notes.txt"));
    assert!(!is_video("README"));
    assert!(!is_video("archive.tar.gz"));
}

#[test]
fn is_video_returns_false_for_path_without_extension() {
    assert!(!is_video("README"));
    assert!(!is_video("/some/path/file"));
    assert!(!is_video(".mkv"));
    assert!(!is_video("a.mkv/.."));
}

#[test]
fn find_videos_returns_single_video_file() {
    let videos = find_videos("/t/only.mp4", true, true, &vec![]);
    assert_eq!(videos, ["/t/only.mp4"]);
}

#[test]
fn find_videos_returns_empty_for_non_video_file() {
    assert!(find_videos("/t/notes.txt", true, true, &vec![]).is_empty());
}

#[test]
fn find_videos_walks_recursively_by_default() {
    let walk = vec![
        folder("/t", 0),
        file("/t/a.mp4", 1),
        file("/t/readme.txt", 1),
        folder("/t/nested", 1),
        file("/t/nested/b.mkv", 2),
        file("/t/nested/c.MOV", 2),
    ];
    let videos = find_videos("/t", false, true, &walk);
    assert_eq!(videos, ["/t/a.mp4", "/t/nested/b.mkv", "/t/nested/c.MOV"]);
}

#[test]
fn find_videos_skips_subdirectories_when_recursive_is_false() {
    let walk = vec![
        folder("/t", 0),
        file("/t/a.mp4", 1),
        folder("/t/nested", 1),
        file("/t/nested/b.mkv", 2),
    ];
    assert_eq!(find_videos("/t", false, false, &walk), ["/t/a.mp4"]);
}

#[test]
fn find_videos_for_nonexistent_path_returns_empty() {
    assert!(find_videos("/t/does-not-exist", false, true, &vec![]).is_empty());
}

#[test]
fn find_videos_prunes_dot_hls_bundle_directories() {
    let walk = vec![
        folder("/t", 0),
        folder("/t/Show", 1),
        folder("/t/Show/S01", 2),
        file("/t/Show/S01/ep1.mkv", 3),
        folder("/t/Show/S01/ep1.hls", 3),
        folder("/t/Show/S01/ep1.hls/720p", 4),
        file("/t/Show/S01/ep1.hls/720p/segment_000.ts", 5),
        file("/t/Show/S01/ep1.hls/720p/segment_001.ts", 5),
        file("/t/Show/S01/ep1.hls2.ts", 3),
    ];
    assert_eq!(
        find_videos("/t", false, true, &walk),
        ["/t/Show/S01/ep1.mkv", "/t/Show/S01/ep1.hls2.ts"]
    );
}

#[test]
fn find_videos_skips_dot_web_mp4_siblings() {
    let walk = vec![
        folder("/t", 0),
        file("/t/ep1.mkv", 1),
        file("/t/ep1.web.mp4", 1),
        file("/t/ep1.WEB.MP4", 1),
        file("/t/ep2.mp4", 1),
    ];
    assert_eq!(find_videos("/t", false, true, &walk), ["/t/ep1.mkv", "/t/ep2.mp4"]);
}

#[test]
fn find_videos_takes_nothing_from_a_bundle_as_root() {
    let walk = vec![folder("/t/a.HLS", 0), file("/t/a.HLS/s.ts", 1)];
    assert!(find_videos("/t/a.HLS", false, true, &walk).is_empty());
}

#[test]
fn find_videos_takes_regular_files_only() {
    let walk = vec![
        WalkEntry {
            path: "/t/link.mkv".into(),
            depth: 1,
            is_dir: false,
            is_file: false,
        },
        folder("/t/dir.mkv", 1),
        file("/t/dir.mkv/a.ts", 2),
    ];
    assert_eq!(find_videos("/t", false, true, &walk), ["/t/dir.mkv/a.ts"]);
}

#[test]
fn finds_videos_across_a_realistic_tree() {
    let walk = vec![
        folder("/r", 0),
        file("/r/top.mkv", 1),
        file("/r/README.txt", 1),
        folder("/r/season1", 1),
        file("/r/season1/ep01.mp4", 2),
        file("/r/season1/ep02.MOV", 2),
        file("/r/season1/subs.srt", 2),
        folder("/r/season1/extras", 2),
        file("/r/season1/extras/trailer.webm", 3),
    ];
    assert_eq!(find_videos("/r", false, true, &walk).len(), 4);
    assert_eq!(find_videos("/r", false, false, &walk), ["/r/top.mkv"]);
}

#[test]
fn single_file_source_returns_just_that_file() {
    assert_eq!(find_videos("/r/movie.m4v", true, true, &vec![]), ["/r/movie.m4v"]);
}

#[test]
fn single_non_video_file_returns_empty() {
    assert!(find_videos("/r/notes.txt", true, true, &vec![]).is_empty());
}

#[test]
fn outputs_of_earlier_runs_are_recognised() {
    assert!(is_web_sibling("/a/b.web.mp4"));
    assert!(is_web_sibling("/a/b.Web.Mp4"));
    assert!(is_web_sibling("/a/.web.mp4"));
    assert!(!is_web_sibling("/a/web.mp4"));
    assert!(!is_web_sibling("/a/b.mp4"));
    assert!(!is_web_sibling("/a.web.mp4/.."));
    assert!(is_hls_bundle_dir("/a/b.hls", true));
    assert!(is_hls_bundle_dir("/a/b.HLS/", true));
    assert!(!is_hls_bundle_dir("/a/b.hls", false));
    assert!(!is_hls_bundle_dir("/a/.hls", true));
    assert!(!is_hls_bundle_dir("/a/b.hlsx", true));
}

#[test]
fn discover_subtitles_finds_basename_match_and_lang_codes() {
    let dir = items(
        "/t",
        &[
            "show.S01E01.mp4",
            "show.S01E01.srt",
            "show.S01E01.en.srt",
            "show.S01E01.ger.srt",
            "other.srt",
            "show.S01E01.txt",
        ],
    );
    let subs = discover_subtitles("/t/show.S01E01.mp4", &dir);
    let found: Vec<(&str, Option<&str>)> = subs
        .iter()
        .map(|s| (s.path.as_str(), s.language.as_deref()))
        .collect();
    assert_eq!(
        found,
        [
            ("/t/show.S01E01.en.srt", Some("en")),
            ("/t/show.S01E01.ger.srt", Some("ger")),
            ("/t/show.S01E01.srt", None),
        ]
    );
}

#[test]
fn discover_subtitles_skips_non_lang_suffix() {
    let subs = discover_subtitles("/t/movie.mkv", &items("/t", &["movie.forced.srt"]));
    assert_eq!(subs.len(), 1);
    assert_eq!(subs[0].language, None);
}

#[test]
fn discover_subtitles_returns_results_sorted_by_path() {
    let dir = items("/t", &["show.fr.srt", "show.en.srt", "show.de.srt"]);
    let subs = discover_subtitles("/t/show.mp4", &dir);
    let names: Vec<&str> = subs.iter().map(|s| s.path.as_str()).collect();
    assert_eq!(names, ["/t/show.de.srt", "/t/show.en.srt", "/t/show.fr.srt"]);
}

#[test]
fn discover_subtitles_accepts_uppercase_extension() {
    let subs = discover_subtitles("/t/clip.mkv", &items("/t", &["clip.SRT"]));
    assert_eq!(subs.len(), 1);
}

#[test]
fn discover_subtitles_ignores_unrelated_videos() {
    let subs = discover_subtitles("/t/movie.mp4", &items("/t", &["other.en.srt"]));
    assert!(subs.is_empty());
}

#[test]
fn discover_subtitles_returns_empty_for_video_without_stem() {
    let subs = discover_subtitles("/", &items("", &["a.srt"]));
    assert!(subs.is_empty());
    assert_eq!(subtitle_dir("/"), None);
}

#[test]
fn languages_are_two_or_three_letters_before_the_next_dot() {
    let dir = items(
        "/t",
        &[
            "m.EN.forced.srt",
            "m.e.srt",
            "m.e1.srt",
            "m.engl.srt",
            "m.éa.srt",
            "m..en.srt",
            "m.PoR.srt",
            "mm.en.srt",
        ],
    );
    let subs = discover_subtitles("/t/m.mkv", &dir);
    let found: Vec<(&str, Option<&str>)> = subs
        .iter()
        .map(|s| (&s.path[3..], s.language.as_deref()))
        .collect();
    assert_eq!(
        found,
        [
            ("m..en.srt", None),
            ("m.EN.forced.srt", Some("en")),
            ("m.PoR.srt", Some("por")),
            ("m.e.srt", None),
            ("m.e1.srt", None),
            ("m.engl.srt", None),
            ("m.éa.srt", None),
        ]
    );
}

#[test]
fn discover_subtitles_takes_files_only() {
    let dir = vec![DirItem {
        path: "/t/m.srt".into(),
        is_file: false,
    }];
    assert!(discover_subtitles("/t/m.mkv", &dir).is_empty());
}

#[test]
fn subtitles_are_looked_for_next_to_the_video() {
    assert_eq!(subtitle_dir("/t/a.mkv").as_deref(), Some("/t"));
    assert_eq!(subtitle_dir("a.mkv").as_deref(), Some("."));
    assert_eq!(subtitle_dir("/a.mkv").as_deref(), Some("/"));
}
