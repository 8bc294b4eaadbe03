use media_convert::backend::Backend;
use media_convert::codec::Codec;
use media_convert::container::Container;
use media_convert::journal::{severity_title, Journal, Severity, LOG_LIMIT};
use media_convert::listing::{
    all_countable, batch_is_complete, batch_line, bitrate_label, codec_column, decision_label,
    filter_label, format_line, internal_subtitles, resolution_label, shown_positions,
    sidecar_label, status_label, summarize, summary_line, Decision, FileEntry, FilterState,
    MetaState, SortColumn, Status,
};
use media_convert::metadata::FileMetadata;
use media_convert::path::strip_base;
use media_convert::probe::VideoInfo;
use media_convert::profile::EncodingProfile;
use media_convert::progress::{Position, ProgressInfo};
use media_convert::running::{child_step, exit_failure, ChildEvent, ChildStep};
use media_convert::scan::SidecarSubtitle;
use media_convert::session::{
    details_message, folder_to_open, job_report, probe_failure, quality_label, takes_preset,
    Deferred, EncodeMsg, OutputDest, ScanMsg, ScanPlan, Session, SourceKind,
};
use media_convert::upscale::Upscale;
use media_convert::workers::{
    BatchEvent, BatchRun, ScanEvent, ScanRun, ScanStep, ScanTask, ScannedFile,
};

fn plan() -> ScanPlan {
    ScanPlan {
        profile: EncodingProfile::Standard,
        codec: Codec::X265,
        container: Container::Mkv,
        output: OutputDest::Single("/o".into()),
        to_one_file: false,
        force: false,
        recurse: true,
        merge_subtitles: false,
    }
}

fn info(codec: &str) -> VideoInfo {
    VideoInfo {
        codec: codec.into(),
        width: Some(640),
        height: Some(360),
        bit_rate: Some(900_000),
        duration: Some("12.5".into()),
        subtitle_codecs: vec!["mov_text".into()],
        unmappable_stream_indices: vec![3],
    }
}

fn entry(rel: &str) -> FileEntry {
    plan().probed_entry(&format!("/s/{rel}"), rel, &format!("/o/{rel}"), info("h264"), vec![])
}

fn session_with(names: &[&str]) -> Session {
    let mut s = Session::new();
    for n in names {
        s.files.push(entry(n));
    }
    s
}

fn note(s: &Session) -> (Severity, Vec<String>) {
    let n = s.journal.notification.as_ref().unwrap();
    (n.severity, n.messages.clone())
}

#[test]
fn sessions_begin_with_the_defaults() {
    let s = Session::new();
    assert_eq!((s.codec, s.backend, s.container), (Codec::X265, Backend::Software, Container::Mkv));
    assert_eq!((s.quality, s.preset.as_str()), (23, "medium"));
    assert!(s.recurse && !s.force && s.sort_ascending && s.sort_column.is_none());
    assert_eq!(s.sources_label(false), "(none)");
    assert_eq!(s.output_label(), "(none)");
    assert!(s.can_scan() && !s.can_convert());
}

#[test]
fn backend_defaults_are_taken_on_request() {
    let mut s = Session::new();
    s.codec = Codec::Av1;
    s.backend = Backend::Nvenc;
    s.reset_to_backend_defaults();
    assert_eq!((s.quality, s.preset.as_str()), (28, "p4"));
    s.backend = Backend::Vaapi;
    s.reset_to_backend_defaults();
    assert_eq!((s.quality, s.preset.as_str()), (28, ""));
    assert_eq!(quality_label(Backend::Software), "crf:");
    assert_eq!(quality_label(Backend::Qsv), "global_quality:");
    assert!(takes_preset(Backend::Qsv, Codec::Av1));
    assert!(!takes_preset(Backend::Vaapi, Codec::Av1));
}

#[test]
fn sources_suggest_an_output_once() {
    let mut s = Session::new();
    s.set_sources(vec!["/m/a.mp4".into()], true);
    assert_eq!(s.output_label(), "/m/a-converted.mkv");
    assert_eq!(s.sources_label(true), "/m/a.mp4 [file]");
    assert_eq!(s.source_file_start(true).as_deref(), Some("/m"));
    s.set_sources(vec!["/x".into(), "/y".into()], false);
    assert_eq!(s.output_label(), "/m/a-converted.mkv");
    assert_eq!(s.sources_label(false), "2 items selected");
    s.output = None;
    s.set_sources(vec![], false);
    assert!(s.output.is_none());
    s.set_sources(vec!["/x".into(), "/y".into()], false);
    assert_eq!(s.output_label(), "(next to each source)");
    assert_eq!(s.output_start(), None);
    assert_eq!(s.source_start().as_deref(), Some("/x"));
    assert_eq!(s.source_file_start(false).as_deref(), Some("/x"));
    s.output = None;
    s.set_sources(vec!["/lib".into()], false);
    assert_eq!(s.output_start().as_deref(), Some("/lib-converted"));
    assert_eq!(s.sources_label(false), "/lib [folder]");
}

#[test]
fn scans_are_refused_with_a_reason() {
    let mut s = Session::new();
    assert!(!s.ready_to_scan(&vec![]));
    s.sources = vec!["/a.txt".into(), "/gone".into(), "/d".into(), "/v.mkv".into()];
    let kinds = vec![
        SourceKind::File,
        SourceKind::Missing,
        SourceKind::Directory,
        SourceKind::File,
    ];
    assert!(!s.ready_to_scan(&kinds));
    s.output = Some(OutputDest::PerSource);
    s.profile = EncodingProfile::Web;
    s.merge_subtitles = true;
    assert!(!s.ready_to_scan(&kinds));
    s.profile = EncodingProfile::Standard;
    assert!(!s.ready_to_scan(&kinds));
    let (severity, messages) = note(&s);
    assert_eq!(severity, Severity::Error);
    assert_eq!(messages[0], "Pick a source folder or file before scanning.");
    assert_eq!(messages[1], "Pick an output directory before scanning.");
    assert!(messages[2].starts_with("--profile web is incompatible"));
    assert_eq!(
        messages[3],
        "Source problems:\nnot a recognised video: /a.txt\ndoes not exist: /gone"
    );
    assert_eq!(s.journal.log, messages);
    s.journal.dismiss();
    s.sources = vec!["/d".into()];
    assert!(s.ready_to_scan(&vec![SourceKind::Directory]));
    assert!(s.journal.notification.is_none());
}

#[test]
fn scans_fill_the_list() {
    let mut s = session_with(&["old.mkv"]);
    assert!(s.begin_scan(false, false, false).is_none());
    assert_eq!(s.files.len(), 1);
    s.selected = Some(0);
    s.output = Some(OutputDest::Single("/o".into()));
    let p = s.begin_scan(false, true, false).unwrap();
    assert!(!p.to_one_file);
    assert_eq!(p.output.display_label(), "/o");
    assert!(s.scanning && s.files.is_empty() && s.selected.is_none());
    assert!(!s.can_scan());
    assert!(s.cancel_scan());
    let mut d = Deferred::new();
    s.take_scan(ScanMsg::Discovered(entry("a.mkv")), &mut d);
    s.take_scan(ScanMsg::Error(probe_failure("b.mkv", "why")), &mut d);
    s.take_scan(ScanMsg::Done(2), &mut d);
    assert!(!s.scanning);
    assert!(!s.cancel_scan());
    s.tell(&d);
    assert_eq!(s.files[0].rel, "a.mkv");
    assert_eq!(
        s.journal.log,
        [
            "scan: started",
            "scan: cancel requested",
            "scan: complete, 2 file(s)",
            "probe failed for b.mkv: why"
        ]
    );
    assert_eq!(note(&s), (Severity::Warning, vec!["probe failed for b.mkv: why".to_string()]));
    s.refuse_output("full");
    let (severity, messages) = note(&s);
    assert_eq!(severity, Severity::Error);
    assert_eq!(messages[1], "Output directory is not usable:\nfull");
    s.scanning = true;
    s.lose_scan();
    assert!(!s.scanning);
}

#[test]
fn plans_place_outputs() {
    let mut p = plan();
    let of_dir = |p: &ScanPlan| p.planned_output("/v/show", false, "/v/show/s1/ep.mkv", "s1/ep.mkv");
    let of_file = |p: &ScanPlan| p.planned_output("/s/d/a.mp4", true, "/s/d/a.mp4", "a.mp4");
    assert_eq!(of_dir(&p), "/o/s1/ep.mkv");
    assert_eq!(of_file(&p), "/o/a.mkv");
    p.output = OutputDest::PerSource;
    assert_eq!(of_dir(&p), "/v/show-converted/s1/ep.mkv");
    assert_eq!(strip_base(&of_dir(&p), "/v/show"), None);
    assert_eq!(of_file(&p), "/s/d/a-converted.mkv");
    p.container = Container::Mp4;
    assert_eq!(of_dir(&p), "/v/show-converted/s1/ep.mp4");
    p.profile = EncodingProfile::Web;
    assert_eq!(of_dir(&p), "/v/show/s1/ep.web.mp4");
    assert_eq!(of_file(&p), "/s/d/a.web.mp4");
    p.profile = EncodingProfile::Hls;
    assert_eq!(of_file(&p), "/s/d/a.hls");
    p.output = OutputDest::Single("/o".into());
    assert_eq!(of_dir(&p), "/o/s1/ep.hls");
    p.profile = EncodingProfile::Web;
    assert_eq!(of_dir(&p), "/o/s1/ep.web.mp4");
}

#[test]
fn a_single_file_may_have_one_output_file() {
    let mut s = Session::new();
    s.set_sources(vec!["/m/a.mp4".into()], true);
    assert_eq!(s.output_label(), "/m/a-converted.mkv");
    assert!(!s.checks_output_dir(true, false, false));
    let p = s.begin_scan(true, false, false).unwrap();
    assert!(p.to_one_file);
    assert_eq!(p.planned_output("/m/a.mp4", true, "/m/a.mp4", "a.mp4"), "/m/a-converted.mkv");
    s.profile = EncodingProfile::Web;
    let p = s.begin_scan(true, false, true).unwrap();
    assert_eq!(p.planned_output("/m/a.mp4", true, "/m/a.mp4", "a.mp4"), "/m/a-converted.mkv");
    s.profile = EncodingProfile::Hls;
    assert!(s.checks_output_dir(true, false, false));
    let p = s.begin_scan(true, false, false).unwrap();
    assert!(!p.to_one_file);
    assert_eq!(
        p.planned_output("/m/a.mp4", true, "/m/a.mp4", "a.mp4"),
        "/m/a-converted.mkv/a.hls"
    );
    s.profile = EncodingProfile::Standard;
    // What exists there as a directory is one.
    assert!(s.checks_output_dir(true, true, false));
    assert!(!s.begin_scan(true, true, false).unwrap().to_one_file);
    // So is what a directory, or several sources, are to go to.
    assert!(s.checks_output_dir(false, false, false));
    s.set_sources(vec!["/m/a.mp4".into(), "/m/b.mp4".into()], true);
    assert!(s.checks_output_dir(true, false, false));
    assert!(!s.begin_scan(true, false, false).unwrap().to_one_file);
    s.output = Some(OutputDest::PerSource);
    assert!(!s.checks_output_dir(true, false, false));
    s.output = None;
    assert!(!s.checks_output_dir(true, false, false));
}

fn scanned() -> ScannedFile {
    ScannedFile {
        abs: "/s/a.mkv".into(),
        rel: "a.mkv".into(),
        output: "/o/a.mkv".into(),
    }
}

fn discovered(step: ScanStep) -> FileEntry {
    match step {
        ScanStep::Send(ScanMsg::Discovered(e)) => e,
        other => panic!("unexpected step: {other:?}"),
    }
}

#[test]
fn scans_take_a_file_step_by_step() {
    let mut p = plan();
    let f = discovered(p.scan_step(&scanned(), ScanEvent::Output(true)));
    assert_eq!(f.decision, Decision::SkipOutputExists);
    assert_eq!(f.output, "/o/a.mkv");
    assert!(matches!(
        p.scan_step(&scanned(), ScanEvent::Output(false)),
        ScanStep::Probe
    ));
    match p.scan_step(&scanned(), ScanEvent::Probed(Err("why".into()))) {
        ScanStep::Send(ScanMsg::Error(m)) => assert_eq!(m, "probe failed for a.mkv: why"),
        other => panic!("unexpected step: {other:?}"),
    }
    let f = discovered(p.scan_step(&scanned(), ScanEvent::Probed(Ok(info("h264")))));
    assert_eq!(f.decision, Decision::Encode);
    assert_eq!(f.abs, "/s/a.mkv");
    p.merge_subtitles = true;
    match p.scan_step(&scanned(), ScanEvent::Probed(Ok(info("h264")))) {
        ScanStep::ListSubtitles(i) => assert_eq!(i.codec, "h264"),
        other => panic!("unexpected step: {other:?}"),
    }
    let f = discovered(p.scan_step(&scanned(), ScanEvent::Listed(info("h264"), vec![])));
    assert_eq!(f.decision, Decision::SkipNoSubtitles);
    let f = discovered(p.scan_step(&scanned(), ScanEvent::Listed(info("h264"), vec![sidecar()])));
    assert_eq!(f.decision, Decision::Encode);
    assert_eq!(f.discovered_subtitles.len(), 1);
}

#[test]
fn scans_count_what_they_find() {
    let mut run = ScanRun::new(2);
    assert!(matches!(run.next_task(false), ScanTask::Source(0)));
    run.found(2);
    assert!(matches!(run.next_task(false), ScanTask::File(0)));
    assert!(matches!(run.next_task(false), ScanTask::File(1)));
    assert!(matches!(run.next_task(false), ScanTask::Source(1)));
    run.found(3);
    assert!(matches!(run.next_task(false), ScanTask::File(0)));
    assert!(matches!(run.next_task(true), ScanTask::Finish(ScanMsg::Done(5))));
    let mut run = ScanRun::new(1);
    assert!(matches!(run.next_task(false), ScanTask::Source(0)));
    run.found(0);
    assert!(matches!(run.next_task(false), ScanTask::Finish(ScanMsg::Done(0))));
    assert!(matches!(
        ScanRun::new(0).next_task(false),
        ScanTask::Finish(ScanMsg::Done(0))
    ));
}

fn sidecar() -> SidecarSubtitle {
    SidecarSubtitle {
        path: "/s/a.en.srt".into(),
        language: Some("en".into()),
    }
}

#[test]
fn plans_decide_on_files() {
    let mut p = plan();
    let f = p.existing_entry("/s/a", "a", "/o/a");
    assert_eq!(f.decision, Decision::SkipOutputExists);
    assert!(f.source_codec.is_none() && matches!(f.status, Status::Pending));
    let f = p.probed_entry("/s/a", "a", "/o/a", info("hevc"), vec![sidecar()]);
    assert_eq!(f.decision, Decision::SkipAlreadyTarget);
    assert!(f.discovered_subtitles.is_empty());
    assert_eq!(f.source_subtitle_codecs, ["mov_text"]);
    assert_eq!(f.unmappable_stream_indices, [3]);
    p.force = true;
    let f = p.probed_entry("/s/a", "a", "/o/a", info("hevc"), vec![]);
    assert_eq!(f.decision, Decision::Encode);
    p.force = false;
    p.merge_subtitles = true;
    let f = p.probed_entry("/s/a", "a", "/o/a", info("hevc"), vec![]);
    assert_eq!(f.decision, Decision::SkipNoSubtitles);
    let f = p.probed_entry("/s/a", "a", "/o/a", info("hevc"), vec![sidecar()]);
    assert_eq!(f.decision, Decision::Encode);
    assert_eq!(f.discovered_subtitles.len(), 1);
    p.merge_subtitles = false;
    p.profile = EncodingProfile::Hls;
    let f = p.probed_entry("/s/a", "a", "/o/a", info("hevc"), vec![]);
    assert_eq!(f.decision, Decision::Encode);
}

#[test]
fn batches_take_what_is_waiting() {
    let mut s = session_with(&["a.mkv", "b.mkv", "c.mkv", "d.mkv"]);
    s.files[1].status = Status::Done;
    s.files[2].decision = Decision::SkipAlreadyTarget;
    s.files[3].status = Status::Failed("x".into());
    assert_eq!(s.waiting(), [0, 3]);
    s.preset = "".into();
    s.upscale = Upscale::To1080p;
    assert!(s.ready_to_encode());
    let batch = s.begin_encode().unwrap();
    assert!(s.encoding && !s.can_convert() && !s.ready_to_encode());
    assert_eq!(note(&s).1, ["Encode is already running."]);
    let job = s.job(0, &vec![sidecar()]);
    assert_eq!((job.index, job.input.as_str(), job.output.as_str()), (0, "/s/a.mkv", "/o/a.mkv"));
    assert_eq!(job.duration.as_deref(), Some("12.5"));
    assert!(job.subtitles.is_empty());
    let o = batch.options(&job);
    assert_eq!((o.preset, o.quality, o.upscale), (None, 23, Upscale::To1080p));
    assert_eq!(o.source_subtitle_codecs, ["mov_text"]);
    assert_eq!(o.unmappable_stream_indices, [3]);
    assert!(!s.looks_for_subtitles());
    s.embed_subtitles = true;
    assert!(s.looks_for_subtitles());
    assert_eq!(s.job(0, &vec![sidecar()]).subtitles[0].path, "/s/a.en.srt");
    s.merge_subtitles = true;
    assert!(!s.looks_for_subtitles());
    assert!(s.job(0, &vec![sidecar()]).subtitles.is_empty());
    s.files[0].discovered_subtitles.push(sidecar());
    assert_eq!(s.job(0, &vec![]).subtitles[0].language.as_deref(), Some("en"));
    assert!(s.cancel_encode());
    s.lose_encode();
    assert!(!s.encoding && !s.cancel_encode());
    for f in s.files.iter_mut() {
        f.status = Status::Done;
    }
    assert!(s.begin_encode().is_none());
    assert_eq!(
        note(&s).1[1],
        "Nothing to encode. Run Scan first, or there are no encodable files."
    );
}

fn progress(us: u64) -> ProgressInfo {
    ProgressInfo {
        position: Position::Micros(us),
        fps: Some("24".into()),
        speed: None,
    }
}

#[test]
fn reports_drive_the_statuses() {
    let mut s = session_with(&["a.mkv", "b.mkv", "c.mkv"]);
    s.encoding = true;
    let mut d = Deferred::new();
    s.take_encode(EncodeMsg::Progress(0, progress(1)), &mut d);
    assert!(matches!(s.files[0].status, Status::Pending));
    s.take_encode(EncodeMsg::Started(0), &mut d);
    assert!(
        matches!(&s.files[0].status, Status::Encoding(p) if p.position == Position::Unknown)
    );
    s.take_encode(EncodeMsg::Progress(0, progress(5)), &mut d);
    assert!(
        matches!(&s.files[0].status, Status::Encoding(p) if p.position == Position::Micros(5))
    );
    s.take_encode(job_report(0, false, Ok(())), &mut d);
    s.take_encode(EncodeMsg::Progress(0, progress(9)), &mut d);
    assert!(matches!(s.files[0].status, Status::Done));
    s.take_encode(job_report(1, false, Err("boom".into())), &mut d);
    assert!(matches!(&s.files[1].status, Status::Failed(m) if m == "boom"));
    s.take_encode(job_report(2, true, Ok(())), &mut d);
    assert!(matches!(s.files[2].status, Status::Canceled));
    s.take_encode(EncodeMsg::Started(7), &mut d);
    s.take_encode(EncodeMsg::Finished(7, Err("far".into())), &mut d);
    assert!(s.encoding);
    s.take_encode(EncodeMsg::AllDone, &mut d);
    assert!(!s.encoding);
    assert_eq!(d.lines, ["ok: a.mkv", "canceled: c.mkv", "encode: complete"]);
    assert_eq!(d.warnings, ["Encode failed: b.mkv\nboom"]);
    let sum = summarize(&s.files);
    assert_eq!((sum.total, sum.done, sum.failed, sum.to_encode), (3, 1, 1, 1));
    assert_eq!((sum.skipped, sum.jobs), (0, 3));
    assert_eq!(
        summary_line(&sum),
        "Files: 3  |  to encode: 1  |  done: 1  |  failed: 1  |  skipped: 0"
    );
    assert_eq!(batch_line(&sum).as_deref(), Some("Batch Progress: 1 / 3"));
    assert!(!batch_is_complete(&sum));
}

#[test]
fn details_are_loaded_once() {
    let mut s = session_with(&["a.mkv", "b.mkv"]);
    assert_eq!(s.select_file(1).as_deref(), Some("/s/b.mkv"));
    assert_eq!(s.select_file(1), None);
    assert_eq!(s.select_file(9), None);
    assert_eq!(s.selected, Some(9));
    assert_eq!(
        details_message(&s.files[1]).as_deref(),
        Some("Loading metadata for b.mkv…")
    );
    s.take_details("/s/b.mkv", Err("bad".into()));
    assert_eq!(
        details_message(&s.files[1]).as_deref(),
        Some("Failed to read metadata for b.mkv:\nbad")
    );
    let meta = FileMetadata {
        format_name: None,
        format_long_name: None,
        size_bytes: None,
        duration_secs: None,
        bit_rate: None,
        title: None,
        streams: vec![],
    };
    s.take_details("/s/a.mkv", Ok(meta));
    assert!(matches!(s.files[0].metadata, MetaState::Loaded(_)));
    assert_eq!(details_message(&s.files[0]), None);
    s.take_details("/elsewhere", Err("lost".into()));
    assert!(matches!(s.files[0].metadata, MetaState::Loaded(_)));
}

#[test]
fn removal_keeps_the_selection_on_its_file() {
    let mut s = session_with(&["a.mkv", "b.mkv", "c.mkv"]);
    s.selected = Some(2);
    s.remove_file(0);
    assert_eq!(s.selected, Some(1));
    assert_eq!(s.files[1].rel, "c.mkv");
    s.selected = Some(0);
    s.remove_file(1);
    assert_eq!(s.selected, Some(0));
    s.remove_file(0);
    assert_eq!(s.selected, None);
    assert!(s.files.is_empty());
}

#[test]
fn lists_are_searched_filtered_and_sorted() {
    let mut s = session_with(&["b/X.mkv", "A.mkv", "b/ä.mkv", "a.mkv"]);
    s.files[0].bit_rate = None;
    s.files[1].bit_rate = Some(5);
    s.files[0].source_codec = Some("vp9".into());
    s.files[2].source_codec = None;
    s.files[1].width = None;
    s.files[2].width = Some(641);
    s.files[3].status = Status::Done;
    s.files[1].status = Status::Failed("x".into());
    assert_eq!(s.filtered_indices(), [0, 1, 2, 3]);
    s.search_query = "x".into();
    assert_eq!(s.filtered_indices(), [0]);
    s.search_query = "Ä".into();
    assert_eq!(s.filtered_indices(), [2]);
    s.search_query = "a.MKV".into();
    assert_eq!(s.filtered_indices(), [1, 3]);
    s.search_query = "".into();
    s.click_column(SortColumn::Name);
    assert_eq!(s.filtered_indices(), [1, 3, 0, 2]);
    s.click_column(SortColumn::Name);
    assert!(!s.sort_ascending);
    assert_eq!(s.filtered_indices(), [2, 0, 3, 1]);
    s.click_column(SortColumn::Bitrate);
    assert!(s.sort_ascending);
    assert_eq!(s.filtered_indices(), [0, 1, 2, 3]);
    s.click_column(SortColumn::Bitrate);
    assert_eq!(s.filtered_indices(), [2, 3, 1, 0]);
    s.click_column(SortColumn::Codec);
    assert_eq!(s.filtered_indices(), [2, 1, 3, 0]);
    s.click_column(SortColumn::Resolution);
    assert!(all_countable(&s.files));
    assert_eq!(s.filtered_indices(), [1, 0, 3, 2]);
    s.click_column(SortColumn::Status);
    assert_eq!(s.filtered_indices(), [0, 2, 3, 1]);
    s.filter_state = FilterState::ToEncode;
    assert_eq!(s.filtered_indices(), [0, 2, 1]);
    s.filter_state = FilterState::Done;
    assert_eq!(s.filtered_indices(), [3]);
    s.filter_state = FilterState::Failed;
    assert_eq!(s.filtered_indices(), [1]);
    s.files[0].width = Some(u32::MAX);
    s.files[0].height = Some(2);
    assert!(!all_countable(&s.files));
    let names: Vec<String> = vec!["q".into(), "r".into(), "qq".into(), "".into()];
    let shown = shown_positions(&s.files, &names, Some("q"), FilterState::All, None, true);
    assert_eq!(shown, [0, 2]);
}

#[test]
fn labels_of_the_list() {
    assert_eq!(decision_label(Decision::Encode), "encode");
    assert_eq!(decision_label(Decision::SkipAlreadyTarget), "skip (target)");
    assert_eq!(decision_label(Decision::SkipOutputExists), "skip (exists)");
    assert_eq!(decision_label(Decision::SkipNoSubtitles), "skip (no sidecar subs)");
    assert_eq!(filter_label(FilterState::All), "All");
    assert_eq!(filter_label(FilterState::ToEncode), "To Encode");
    assert_eq!(filter_label(FilterState::Done), "Done");
    assert_eq!(filter_label(FilterState::Failed), "Failed");
    assert_eq!(status_label(&Status::Pending, None), "pending");
    assert_eq!(status_label(&Status::Encoding(progress(1)), Some(7)), "encoding  7%");
    assert_eq!(status_label(&Status::Encoding(progress(1)), Some(100)), "encoding 100%");
    assert_eq!(status_label(&Status::Encoding(progress(1)), None), "encoding");
    assert_eq!(status_label(&Status::Done, Some(1)), "done");
    assert_eq!(status_label(&Status::Failed("x".into()), None), "failed");
    assert_eq!(status_label(&Status::Canceled, None), "canceled");
    let mut f = entry("a.mkv");
    assert_eq!(resolution_label(&f), "640x360");
    assert_eq!(bitrate_label(&f), "900 kbps");
    assert_eq!(codec_column(&f), "h264");
    assert_eq!(format_line(&f, Some(13)), "h264, 640x360, 900 kbps, 0:13");
    assert_eq!(internal_subtitles(&f), "1 tracks: mov_text");
    f.source_subtitle_codecs.push("subrip".into());
    assert_eq!(internal_subtitles(&f), "2 tracks: mov_text, subrip");
    f.source_subtitle_codecs.clear();
    f.source_codec = None;
    f.height = None;
    f.bit_rate = None;
    assert_eq!(resolution_label(&f), "-");
    assert_eq!(bitrate_label(&f), "-");
    assert_eq!(codec_column(&f), "-");
    assert_eq!(format_line(&f, None), "unknown, unknown, unknown, unknown");
    assert_eq!(internal_subtitles(&f), "none");
    assert_eq!(sidecar_label(&sidecar()), "a.en.srt (en)");
    let plain = SidecarSubtitle {
        path: "/s/a.srt".into(),
        language: None,
    };
    assert_eq!(sidecar_label(&plain), "a.srt (unknown lang)");
    let empty = summarize(&vec![]);
    assert_eq!(batch_line(&empty), None);
    assert!(!batch_is_complete(&empty));
    f.status = Status::Done;
    assert!(batch_is_complete(&summarize(&vec![f])));
    assert_eq!(folder_to_open("/a/b.mkv", false), "/a");
    assert_eq!(folder_to_open("/a", true), "/a");
    assert_eq!(folder_to_open("/", false), "/");
}

#[test]
fn the_log_keeps_its_last_lines() {
    let mut j = Journal::new();
    for i in 0..LOG_LIMIT + 3 {
        j.log(&i.to_string());
    }
    assert_eq!(j.log.len(), LOG_LIMIT);
    assert_eq!(j.log[0], "3");
    assert_eq!(j.log[LOG_LIMIT - 1], (LOG_LIMIT + 2).to_string());
    j.notify_warning("w");
    j.notify_error("e");
    j.notify_warning("v");
    let n = j.notification.as_ref().unwrap();
    assert_eq!(n.severity, Severity::Error);
    assert_eq!(n.messages, ["w", "e", "v"]);
    assert_eq!(j.log[LOG_LIMIT - 1], "v");
    j.dismiss();
    assert!(j.notification.is_none());
    j.catch_up(&vec!["l".into()], &vec!["m".into()]);
    assert_eq!(j.log[LOG_LIMIT - 2..], ["l", "m"]);
    assert_eq!(j.notification.as_ref().unwrap().severity, Severity::Warning);
    assert_eq!(severity_title(Severity::Error), "Error");
    assert_eq!(severity_title(Severity::Warning), "Warning");
}

#[test]
fn missing_programs_are_told_once() {
    let mut s = Session::new();
    s.start_up(&vec!["ffmpeg".into(), "ffprobe".into()]);
    s.start_up(&vec!["ffmpeg".into()]);
    assert_eq!(
        note(&s),
        (
            Severity::Error,
            vec![
                "`ffmpeg` not found on PATH. Install ffmpeg before running encodes.".to_string(),
                "`ffprobe` not found on PATH. Install ffmpeg before running encodes.".to_string(),
            ]
        )
    );
}

#[test]
fn encodes_are_watched_to_their_end() {
    assert!(matches!(child_step(&ChildEvent::Running), ChildStep::Wait));
    let ended = |success: bool| ChildEvent::Ended {
        success,
        status: "exit status: 1".into(),
    };
    assert!(matches!(child_step(&ended(true)), ChildStep::Finish));
    assert!(matches!(
        child_step(&ended(false)),
        ChildStep::Discard(m) if m == "ffmpeg exited with exit status: 1"
    ));
    assert!(matches!(
        child_step(&ChildEvent::WaitFailed("no child".into())),
        ChildStep::Fail(m) if m == "waiting on ffmpeg: no child"
    ));
    assert!(matches!(
        child_step(&ChildEvent::Lost),
        ChildStep::Fail(m) if m == "ffmpeg child slot cleared unexpectedly"
    ));
    assert_eq!(exit_failure(true, "exit status: 0", "a"), None);
    assert_eq!(
        exit_failure(false, "exit status: 1", "a.mkv").as_deref(),
        Some("ffmpeg exited with exit status: 1 while encoding a.mkv")
    );
}

fn ready(canceled: bool) -> BatchEvent {
    BatchEvent::Ready { canceled }
}

fn ran(canceled: bool, result: Result<(), String>) -> BatchEvent {
    BatchEvent::Ran { canceled, result }
}

#[test]
fn jobs_are_reported_in_turn() {
    let mut run = BatchRun::new(vec![4, 7]);
    assert_eq!(run.running(), None);
    assert!(run.step(ran(false, Ok(()))).is_none());
    assert!(matches!(run.step(ready(false)), Some(EncodeMsg::Started(4))));
    assert_eq!(run.running(), Some(0));
    assert!(run.step(ready(false)).is_none());
    assert!(matches!(run.step(ran(false, Ok(()))), Some(EncodeMsg::Finished(4, Ok(())))));
    assert!(matches!(run.step(ready(false)), Some(EncodeMsg::Started(7))));
    assert_eq!(run.running(), Some(1));
    match run.step(ran(false, Err("boom".into()))) {
        Some(EncodeMsg::Finished(7, Err(m))) => assert_eq!(m, "boom"),
        other => panic!("unexpected report: {other:?}"),
    }
    assert!(matches!(run.step(ready(false)), Some(EncodeMsg::AllDone)));
    assert!(run.step(ready(false)).is_none());
    assert_eq!(run.running(), None);
}

#[test]
fn nothing_starts_after_a_cancel() {
    let mut run = BatchRun::new(vec![0, 1, 2]);
    assert!(matches!(run.step(ready(false)), Some(EncodeMsg::Started(0))));
    assert!(matches!(run.step(ran(true, Ok(()))), Some(EncodeMsg::Canceled(0))));
    assert!(matches!(run.step(ready(false)), Some(EncodeMsg::AllDone)));
    assert!(run.step(ready(false)).is_none());
    let mut run = BatchRun::new(vec![0]);
    assert!(matches!(run.step(ready(true)), Some(EncodeMsg::AllDone)));
    let mut run = BatchRun::new(vec![]);
    assert!(matches!(run.step(ready(false)), Some(EncodeMsg::AllDone)));
}

#[test]
fn logged_lines_are_printed_once() {
    let mut j = Journal::new();
    assert!(j.take_unprinted().is_empty());
    j.log("a");
    j.notify_error("b");
    assert_eq!(j.take_unprinted(), ["a", "b"]);
    assert!(j.take_unprinted().is_empty());
    for i in 0..LOG_LIMIT + 2 {
        j.log(&format!("{i}"));
    }
    assert_eq!(j.log.len(), LOG_LIMIT);
    let lines = j.take_unprinted();
    assert_eq!(lines.len(), LOG_LIMIT + 2);
    assert_eq!(lines[0], "0");
}

#[test]
fn details_find_their_file_however_its_path_is_written() {
    let mut s = session_with(&["a.mkv", "b.mkv"]);
    s.take_details("//s/./b.mkv/", Err("bad".into()));
    assert!(matches!(s.files[0].metadata, MetaState::NotLoaded));
    assert!(matches!(s.files[1].metadata, MetaState::Failed(_)));
}
