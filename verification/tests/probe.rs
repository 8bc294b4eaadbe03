use media_convert::inhibit::build_inhibit_command;
use media_convert::metadata::{
    metadata_rows, picture_size, stream_detail, stream_lines, streams_heading, FileMetadata,
    StreamInfo,
};
use media_convert::probe::{
    build_ffprobe_command, video_codec, video_info, Format, ProbeError, ProbeOutput, Stream,
};

fn stream(index: u32, kind: &str, codec: Option<&str>) -> Stream {
    Stream {
        index: Some(index),
        codec_name: codec.map(String::from),
        codec_type: Some(kind.into()),
        width: None,
        height: None,
        bit_rate: None,
    }
}

#[test]
fn the_first_known_video_stream_counts() {
    let mut video = stream(2, "video", Some("hevc"));
    video.width = Some(1920);
    video.height = Some(1080);
    video.bit_rate = Some("4500000".into());
    let mut cover = stream(5, "video", Some("mjpeg"));
    cover.width = Some(600);
    let probe = ProbeOutput {
        streams: vec![
            stream(0, "video", None),
            stream(1, "data", Some("")),
            video,
            stream(3, "subtitle", Some("mov_text")),
            stream(4, "audio", Some("aac")),
            cover,
            stream(6, "subtitle", Some("subrip")),
            stream(7, "subtitle", None),
        ],
        format: Some(Format {
            duration: Some("61.5".into()),
        }),
    };
    let info = video_info(&probe).unwrap();
    assert_eq!(info.codec, "hevc");
    assert_eq!((info.width, info.height), (Some(1920), Some(1080)));
    assert_eq!(info.bit_rate, Some(4_500_000));
    assert_eq!(info.duration.as_deref(), Some("61.5"));
    assert_eq!(info.subtitle_codecs, ["mov_text", "subrip"]);
    assert_eq!(info.subtitle_count(), 2);
    assert_eq!(info.unmappable_stream_indices, [0, 1, 7]);
    assert_eq!(video_codec(&probe).unwrap(), "hevc");
}

#[test]
fn a_file_without_video_is_an_error() {
    let probe = ProbeOutput {
        streams: vec![stream(0, "audio", Some("aac")), stream(1, "video", None)],
        format: None,
    };
    assert!(matches!(video_info(&probe), Err(ProbeError::NoVideo)));
    assert!(matches!(video_codec(&probe), Err(ProbeError::NoVideo)));
    assert_eq!(ProbeError::NoVideo.message("/a.mkv"), "no video stream found in /a.mkv");
}

#[test]
fn streams_without_a_kind_or_an_index_are_left_out() {
    let mut odd = stream(0, "video", Some("h264"));
    odd.codec_type = None;
    let mut nameless = stream(0, "data", None);
    nameless.index = None;
    let mut rate = stream(2, "video", Some("av1"));
    rate.bit_rate = Some("N/A".into());
    let probe = ProbeOutput {
        streams: vec![odd, nameless, rate],
        format: Some(Format { duration: None }),
    };
    let info = video_info(&probe).unwrap();
    assert_eq!(info.codec, "av1");
    assert_eq!(info.bit_rate, None);
    assert_eq!(info.duration, None);
    assert!(info.unmappable_stream_indices.is_empty());
    assert_eq!(info.subtitle_count(), 0);
}

#[test]
fn probe_failures_in_words() {
    assert_eq!(
        ProbeError::NotStarted.message("x"),
        "failed to invoke ffprobe (is it installed and on PATH?)"
    );
    assert_eq!(
        ProbeError::Failed(" bad file\n".into()).message("x"),
        "ffprobe failed for x: bad file"
    );
    assert_eq!(
        ProbeError::Unreadable.message("x"),
        "failed to parse ffprobe JSON for x"
    );
}

#[test]
fn ffprobe_is_asked_for_json() {
    let cmd = build_ffprobe_command("/a b.mkv");
    assert_eq!(cmd.program, "ffprobe");
    assert_eq!(
        cmd.args,
        [
            "-v",
            "error",
            "-show_entries",
            "stream=index,codec_name,codec_type,width,height,bit_rate:format=duration",
            "-of",
            "json",
            "/a b.mkv"
        ]
    );
}

#[test]
fn the_inhibitor_blocks_idling_and_sleeping() {
    let cmd = build_inhibit_command("Encoding video files");
    assert_eq!(cmd.program, "systemd-inhibit");
    assert_eq!(
        cmd.args,
        [
            "--what=idle:sleep",
            "--who=media-convert",
            "--why=Encoding video files",
            "--mode=block",
            "sleep",
            "infinity"
        ]
    );
}

fn plain_stream() -> StreamInfo {
    StreamInfo {
        index: 1,
        codec_type: "audio".into(),
        codec_name: None,
        profile: None,
        width: None,
        height: None,
        pix_fmt: None,
        frame_rate: None,
        channels: None,
        channel_layout: None,
        sample_rate: None,
        bit_rate: None,
        language: None,
        title: None,
        default: false,
        forced: false,
    }
}

#[test]
fn stream_details_in_one_line() {
    assert_eq!(stream_detail(&plain_stream()), "");
    let mut s = plain_stream();
    s.profile = Some("Main 10".into());
    s.width = Some(1920);
    s.height = Some(1080);
    s.pix_fmt = Some("yuv420p10le".into());
    s.frame_rate = Some("23.976 fps".into());
    s.channels = Some(6);
    s.channel_layout = Some("5.1".into());
    s.sample_rate = Some(48000);
    s.bit_rate = Some(640_999);
    s.language = Some("eng".into());
    s.title = Some("Surround".into());
    s.default = true;
    s.forced = true;
    assert_eq!(
        stream_detail(&s),
        "profile=Main 10 • 1920×1080 • yuv420p10le • 23.976 fps • 6ch (5.1) • 48000 Hz • 640 kb/s \
         • lang=eng • title=\"Surround\" • [default,forced]"
    );
    let mut t = plain_stream();
    t.width = Some(3);
    t.channels = Some(2);
    t.channel_layout = Some("".into());
    t.default = true;
    assert_eq!(stream_detail(&t), "2ch • [default]");
    t.default = false;
    t.forced = true;
    t.channel_layout = None;
    assert_eq!(stream_detail(&t), "2ch • [forced]");
    assert_eq!(picture_size(Some(4), Some(3), "x").as_deref(), Some("4x3"));
    assert_eq!(picture_size(None, Some(3), "x"), None);
}

#[test]
fn metadata_as_rows_and_lines() {
    let mut first = plain_stream();
    first.index = 0;
    first.codec_type = "video".into();
    first.codec_name = Some("hevc".into());
    first.pix_fmt = Some("yuv420p".into());
    let meta = FileMetadata {
        format_name: Some("matroska".into()),
        format_long_name: Some("Matroska / WebM".into()),
        size_bytes: Some(1536),
        duration_secs: Some(3661),
        bit_rate: Some(1_234_567),
        title: Some("T".into()),
        streams: vec![first, plain_stream()],
    };
    let rows: Vec<(String, String)> = metadata_rows("/a.mkv", &meta)
        .into_iter()
        .map(|r| (r.label.to_string(), r.value))
        .collect();
    let want: Vec<(String, String)> = [
        ("Path", "/a.mkv"),
        ("Container", "matroska  (Matroska / WebM)"),
        ("Size", "1.50 KiB (1536 bytes)"),
        ("Duration", "1:01:01"),
        ("Overall bitrate", "1234 kb/s"),
        ("Title", "T"),
    ]
    .iter()
    .map(|(a, b)| (a.to_string(), b.to_string()))
    .collect();
    assert_eq!(rows, want);
    assert_eq!(
        stream_lines(&meta),
        ["#0 video: hevc", "    yuv420p", "#1 audio: (unknown)"]
    );
    assert_eq!(streams_heading(&meta), "Streams (2)");
    let bare = FileMetadata {
        format_name: Some("mp4".into()),
        format_long_name: Some("mp4".into()),
        size_bytes: None,
        duration_secs: None,
        bit_rate: None,
        title: None,
        streams: vec![],
    };
    let rows = metadata_rows("p", &bare);
    assert_eq!(rows.len(), 2);
    assert_eq!((rows[1].label, rows[1].value.as_str()), ("Container", "mp4"));
    assert!(stream_lines(&bare).is_empty());
}
