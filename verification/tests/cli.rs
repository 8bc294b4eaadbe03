use media_convert::backend::Backend;
use media_convert::cli::{
    action_line, checks_output_dir, decide, done_line, encode_options, failed_line, file_output,
    file_prefix, file_step, found_line, missing_program, output_root, percent_line,
    probe_failed_line, relative_path, relative_root, root_notice, root_refusal, sidecars_line,
    skip_line, subtitle_inputs, tally, validate, Cli, Decision, FileEvent, FileStep, Outcome,
    UsageError,
};
use media_convert::codec::Codec;
use media_convert::container::Container;
use media_convert::profile::EncodingProfile;
use media_convert::scan::SidecarSubtitle;
use media_convert::session::{OutputDest, Session};
use media_convert::upscale::Upscale;

fn args() -> Cli {
    Cli {
        source: "/lib".into(),
        output: None,
        profile: EncodingProfile::Standard,
        codec: Codec::X265,
        container: Container::Mkv,
        backend: Backend::Software,
        quality: None,
        preset: None,
        upscale: Upscale::Native,
        dry_run: false,
        force: false,
        no_recurse: false,
        embed_subtitles: false,
        merge_subtitles: false,
    }
}

#[test]
fn runs_are_refused_for_the_first_thing_wrong() {
    let mut a = args();
    assert_eq!(validate(&a, false, true), Ok(false));
    assert_eq!(validate(&a, false, false), Err(UsageError::NoSource));
    assert_eq!(validate(&a, true, false), Err(UsageError::NotVideo));
    a.source = "/lib/a.MKV".into();
    assert_eq!(validate(&a, true, false), Ok(true));
    a.quality = Some(63);
    assert_eq!(validate(&a, true, false), Ok(true));
    a.quality = Some(64);
    assert_eq!(validate(&a, false, false), Err(UsageError::QualityTooHigh(64)));
    a.merge_subtitles = true;
    a.profile = EncodingProfile::Web;
    assert_eq!(validate(&a, true, false), Err(UsageError::WebWithMerge));
    a.profile = EncodingProfile::Hls;
    assert_eq!(validate(&a, true, false), Err(UsageError::HlsWithMerge));
}

#[test]
fn refusals_in_words() {
    assert_eq!(
        UsageError::WebWithMerge.message("s"),
        "--profile web is incompatible with --merge-subtitles: web mode re-encodes the video, \
         while merge-subtitles stream-copies it. Pick one."
    );
    assert_eq!(
        UsageError::HlsWithMerge.message("s"),
        "--profile hls is incompatible with --merge-subtitles: hls mode re-encodes a full \
         rendition ladder, while merge-subtitles stream-copies the video. Pick one."
    );
    assert_eq!(
        UsageError::QualityTooHigh(200).message("s"),
        "--quality must be 0-63 (got 200); see backend docs for the meaningful range"
    );
    assert_eq!(
        UsageError::NotVideo.message("s"),
        "source file is not a recognised video format: s"
    );
    assert_eq!(UsageError::NoSource.message("s"), "source does not exist: s");
    assert_eq!(
        missing_program("ffmpeg"),
        "`ffmpeg` not found on PATH; install ffmpeg first"
    );
}

#[test]
fn shared_outputs() {
    let mut a = args();
    assert_eq!(output_root(&a, false), "/lib-converted");
    assert_eq!(
        root_notice(&a, "/lib-converted").as_deref(),
        Some("--output not given; defaulting to /lib-converted")
    );
    assert_eq!(
        root_refusal(&a, false, "/o", true, false).as_deref(),
        Some("--output exists and is not a directory: /o")
    );
    assert_eq!(root_refusal(&a, true, "/o", true, false), None);
    assert_eq!(root_refusal(&a, false, "/o", true, true), None);
    assert_eq!(root_refusal(&a, false, "/o", false, false), None);
    a.profile = EncodingProfile::Web;
    assert_eq!(output_root(&a, false), "");
    assert_eq!(root_notice(&a, ""), None);
    assert_eq!(root_refusal(&a, false, "/o", true, false), None);
    a.output = Some("/o".into());
    assert_eq!(output_root(&a, false), "/o");
    a.profile = EncodingProfile::Standard;
    assert_eq!(root_notice(&a, "/o"), None);
}

#[test]
fn directories_are_checked_where_outputs_share_one() {
    let mut a = args();
    assert!(checks_output_dir(&a, false, "/o", false, false));
    assert!(checks_output_dir(&a, false, "/o.mkv", false, false));
    assert!(!checks_output_dir(&a, true, "/o.mkv", false, false));
    assert!(checks_output_dir(&a, true, "/o", false, false));
    a.dry_run = true;
    assert!(!checks_output_dir(&a, false, "/o", false, false));
    a.dry_run = false;
    a.profile = EncodingProfile::Web;
    assert!(!checks_output_dir(&a, false, "", false, false));
    a.output = Some("/o".into());
    assert!(checks_output_dir(&a, false, "/o", false, false));
    assert!(!checks_output_dir(&a, false, "/o.mp4", false, false));
    a.profile = EncodingProfile::Hls;
    assert!(checks_output_dir(&a, false, "/o.mp4", false, false));
    a.output = None;
    assert!(!checks_output_dir(&a, false, "", false, false));
}

#[test]
fn outputs_of_files() {
    let mut a = args();
    let out = |a: &Cli, single: bool, root: &str| {
        file_output(a, single, root, false, false, "/lib/s/e.mp4", "s/e.mp4")
    };
    assert_eq!(out(&a, false, "/o"), "/o/s/e.mkv");
    assert_eq!(out(&a, true, "/o/x.mkv"), "/o/x.mkv");
    assert_eq!(out(&a, false, "/o/x.mkv"), "/o/x.mkv/s/e.mkv");
    a.profile = EncodingProfile::Web;
    assert_eq!(out(&a, false, ""), "/lib/s/e.web.mp4");
    a.output = Some("/o".into());
    assert_eq!(out(&a, false, "/o"), "/o/s/e.web.mp4");
    assert_eq!(out(&a, true, "/o/x.mp4"), "/o/x.mp4");
    a.profile = EncodingProfile::Hls;
    assert_eq!(out(&a, false, "/o"), "/o/s/e.hls");
    assert_eq!(out(&a, true, "/o/x.mp4"), "/o/x.mp4/s/e.hls");
    a.output = None;
    assert_eq!(out(&a, false, ""), "/lib/s/e.hls");
    assert_eq!(relative_root("/lib/a.mkv", true), "/lib");
    assert_eq!(relative_root("a.mkv", true), "");
    assert_eq!(relative_root("/lib", false), "/lib");
    assert_eq!(relative_path("/lib/s/e.mp4", "/lib/"), "s/e.mp4");
    assert_eq!(relative_path("/lib/s/e.mp4", "/other"), "/lib/s/e.mp4");
    assert_eq!(relative_path("a.mkv", ""), "a.mkv");
}

#[test]
fn sessions_place_like_runs() {
    for profile in [EncodingProfile::Standard, EncodingProfile::Web, EncodingProfile::Hls] {
        for (single, root) in [(false, "/o"), (true, "/o"), (true, "/o/x.mkv")] {
            let mut a = args();
            a.profile = profile;
            a.output = Some(root.into());
            let mut s = Session::new();
            s.profile = profile;
            s.output = Some(OutputDest::Single(root.into()));
            s.set_sources(vec!["/lib/e.mp4".into()], single);
            let plan = s.begin_scan(single, false, false).unwrap();
            assert_eq!(
                plan.planned_output("/lib/e.mp4", single, "/lib/e.mp4", "e.mp4"),
                file_output(&a, single, root, false, false, "/lib/e.mp4", "e.mp4")
            );
        }
    }
}

fn step(a: &Cli, e: FileEvent) -> FileStep {
    file_step(a, &e)
}

#[test]
fn existing_outputs_are_left() {
    for dry in [false, true] {
        for force in [false, true] {
            let mut a = args();
            a.dry_run = dry;
            a.force = force;
            assert!(matches!(
                step(&a, FileEvent::Output(true)),
                FileStep::Skip(r) if r == "output exists"
            ));
        }
    }
}

#[test]
fn codecs_decide_standard_runs() {
    let mut a = args();
    assert!(matches!(step(&a, FileEvent::Output(false)), FileStep::ProbeCodec));
    assert!(matches!(
        step(&a, FileEvent::Codec("HEVC".into())),
        FileStep::Skip(r) if r == "already x265"
    ));
    assert!(matches!(step(&a, FileEvent::Codec("h264".into())), FileStep::Encode));
    assert!(matches!(step(&a, FileEvent::ProbeFailed), FileStep::GiveUp));
    a.embed_subtitles = true;
    assert!(matches!(step(&a, FileEvent::Codec("h264".into())), FileStep::ListSubtitles));
    assert!(matches!(step(&a, FileEvent::Subtitles(0)), FileStep::Encode));
    a.force = true;
    assert!(matches!(step(&a, FileEvent::Output(false)), FileStep::ListSubtitles));
    a.embed_subtitles = false;
    assert!(matches!(step(&a, FileEvent::Output(false)), FileStep::Encode));
    a.dry_run = true;
    assert!(matches!(step(&a, FileEvent::Output(false)), FileStep::Announce));
    assert!(matches!(decide("av1", Codec::Av1, false), Decision::Skip(r) if r == "already av1"));
    assert!(matches!(decide("av1", Codec::Av1, true), Decision::Encode));
    assert!(matches!(decide("hevc", Codec::Av1, false), Decision::Encode));
}

#[test]
fn bundles_are_made_whatever_the_codec() {
    let mut a = args();
    a.profile = EncodingProfile::Hls;
    assert!(matches!(step(&a, FileEvent::Output(false)), FileStep::Encode));
    a.profile = EncodingProfile::Web;
    a.embed_subtitles = true;
    assert!(matches!(step(&a, FileEvent::Output(false)), FileStep::ListSubtitles));
}

#[test]
fn merging_needs_something_to_merge() {
    let mut a = args();
    a.merge_subtitles = true;
    assert!(matches!(step(&a, FileEvent::Output(false)), FileStep::ListSubtitles));
    assert!(matches!(
        step(&a, FileEvent::Subtitles(0)),
        FileStep::Skip(r) if r == "no sidecar subtitles to merge"
    ));
    assert!(matches!(step(&a, FileEvent::Subtitles(2)), FileStep::Encode));
    a.dry_run = true;
    assert!(matches!(step(&a, FileEvent::Subtitles(2)), FileStep::Announce));
}

#[test]
fn options_take_defaults_from_the_backend() {
    let mut a = args();
    a.codec = Codec::Av1;
    let subs = subtitle_inputs(&vec![SidecarSubtitle {
        path: "/a.en.srt".into(),
        language: Some("en".into()),
    }]);
    let codecs = ["subrip".to_string()];
    let o = encode_options(&a, &subs, &codecs, &[3]);
    assert_eq!((o.quality, o.preset, o.merge_only), (30, None, false));
    assert_eq!(o.subtitles[0].path, "/a.en.srt");
    assert_eq!(o.subtitles[0].language.as_deref(), Some("en"));
    assert_eq!(o.source_subtitle_codecs, ["subrip"]);
    assert_eq!(o.unmappable_stream_indices, [3]);
    a.quality = Some(7);
    a.preset = Some("4".into());
    a.merge_subtitles = true;
    let o = encode_options(&a, &[], &[], &[]);
    assert_eq!((o.quality, o.preset, o.merge_only), (7, Some("4"), true));
}

#[test]
fn lines_about_a_run() {
    let mut a = args();
    assert_eq!(found_line(&a, 0), "no video files found under /lib");
    assert_eq!(found_line(&a, 3), "found 3 candidate file(s); target codec: x265");
    a.profile = EncodingProfile::Web;
    assert_eq!(
        found_line(&a, 1),
        "found 1 candidate file(s); profile: web (sibling .web.mp4)"
    );
    a.profile = EncodingProfile::Hls;
    assert_eq!(
        found_line(&a, 1),
        "found 1 candidate file(s); profile: hls (sibling .hls/ bundle)"
    );
    assert_eq!(file_prefix(0, 12), "[1/12]");
    assert_eq!(skip_line("[1/2]", "already av1", "a.mkv"), "[1/2] skip (already av1): a.mkv");
    assert_eq!(action_line(&a, "[1/2]", "a", "b"), "[1/2] encoding: a -> b");
    a.merge_subtitles = true;
    assert_eq!(action_line(&a, "[1/2]", "a", "b"), "[1/2] merging: a -> b");
    a.dry_run = true;
    assert_eq!(action_line(&a, "[1/2]", "a", "b"), "[1/2] would merge subs into: a -> b");
    a.merge_subtitles = false;
    assert_eq!(action_line(&a, "[1/2]", "a", "b"), "[1/2] would encode: a -> b");
    assert_eq!(sidecars_line("[1/2]", 2), "[1/2] found 2 sidecar subtitle file(s)");
    assert_eq!(percent_line("[1/2]", 0, "a"), "[1/2]   0% a");
    assert_eq!(percent_line("[1/2]", 100, "a"), "[1/2] 100% a");
    assert_eq!(probe_failed_line("[1/2]", "a", "why"), "[1/2] probe failed for a: why");
    assert_eq!(failed_line("[1/2]", "why"), "[1/2] FAILED: why");
}

#[test]
fn outcomes_are_counted() {
    let t = tally(&[
        Outcome::Converted,
        Outcome::Skipped,
        Outcome::Failed,
        Outcome::Converted,
        Outcome::Announced,
    ]);
    assert_eq!((t.converted, t.skipped, t.failed), (2, 1, 1));
    assert_eq!(done_line(&t), "done: 2 converted, 1 skipped, 1 failed");
    assert_eq!(done_line(&tally(&[])), "done: 0 converted, 0 skipped, 0 failed");
}
