use media_convert::backend::Backend;
use media_convert::codec::Codec;
use media_convert::container::Container;
use media_convert::convert::{
    build_ffmpeg_command, file_protocol_arg, prepare_output_dirs, subtitle_codec_for_mkv,
    CommandLine, EncodeOptions, SubtitleInput,
};
use media_convert::profile::EncodingProfile;
use media_convert::upscale::Upscale;

fn args_of(cmd: &CommandLine) -> Vec<String> {
    cmd.args.clone()
}

fn opts_software_x265() -> EncodeOptions<'static> {
    EncodeOptions {
        profile: EncodingProfile::Standard,
        codec: Codec::X265,
        backend: Backend::Software,
        container: Container::Mkv,
        quality: 23,
        preset: None,
        subtitles: &[],
        source_subtitle_codecs: &[],
        unmappable_stream_indices: &[],
        merge_only: false,
        upscale: Upscale::Native,
    }
}

#[test]
fn unmappable_indices_negative_mapped_after_positive_map() {
    // Reproduces the Baruto.mp4 case: source has data streams 2 and 3
    // tagged `mp4s` with no recognized codec. With MKV's `-map 0`, the
    // matroska muxer rejects them ("Tag mp4s incompatible with output
    // codec id '0'"). Probe flags the indices, encoder negative-maps
    // them. Order matters — `-map -0:N` must follow `-map 0` so it
    // trims the previously-selected set.
    let unmappable = [2usize, 3usize];
    let mut opts = opts_software_x265();
    opts.unmappable_stream_indices = &unmappable;
    let cmd = build_ffmpeg_command("/in/a.mp4", "/out/a.mkv", &opts);
    let args = args_of(&cmd);
    let positive = args
        .windows(2)
        .position(|w| w == ["-map", "0"])
        .expect("has -map 0");
    let neg2 = args
        .windows(2)
        .position(|w| w == ["-map", "-0:2"])
        .expect("has -map -0:2");
    let neg3 = args
        .windows(2)
        .position(|w| w == ["-map", "-0:3"])
        .expect("has -map -0:3");
    assert!(positive < neg2 && positive < neg3);
}

#[test]
fn ffmpeg_command_passes_ignore_unknown_globally() {
    // Some MP4 sources contain streams ffmpeg can't identify (e.g.
    // `mp4s` MPEG-4 systems streams). With MKV's `-map 0`, those would
    // hit the matroska muxer and fail. `-ignore_unknown` must appear
    // before -i so the muxer drops them instead.
    let cmd = build_ffmpeg_command(
        "/in/a.mp4",
        "/out/a.mkv",
        &opts_software_x265(),
    );
    let args = args_of(&cmd);
    let flag_idx = args
        .iter()
        .position(|a| a == "-ignore_unknown")
        .expect("has -ignore_unknown");
    let input_idx = args.iter().position(|a| a == "-i").expect("has -i");
    assert!(flag_idx < input_idx, "-ignore_unknown must precede -i");
}

#[test]
fn ffmpeg_command_uses_ffmpeg_program() {
    let cmd = build_ffmpeg_command(
        "/in/movie.mp4",
        "/out/movie.mkv",
        &opts_software_x265(),
    );
    assert_eq!(cmd.program, "ffmpeg");
}

#[test]
fn mkv_container_uses_map_zero_and_copies_subs_data_attachments() {
    let cmd = build_ffmpeg_command(
        "/in/a.mp4",
        "/out/a.mkv",
        &opts_software_x265(),
    );
    let args = args_of(&cmd);
    // Bare `-map 0` (whole-stream copy)
    let map_idx = args.iter().position(|a| a == "-map").expect("has -map");
    assert_eq!(args[map_idx + 1], "0");
    // No probe info for source subs → fall back to global `-c:s copy`,
    // plus the always-present data and attachment copy flags
    assert!(args.windows(2).any(|w| w == ["-c:s", "copy"]));
    assert!(args.windows(2).any(|w| w == ["-c:d", "copy"]));
    assert!(args.windows(2).any(|w| w == ["-c:t", "copy"]));
}

#[test]
fn mkv_transcodes_mov_text_to_srt_and_copies_other_subs() {
    // MP4 source with a mov_text track plus a subrip track. Matroska
    // muxer rejects `-c:s copy` for mov_text, so we emit per-stream:
    // stream 0 (mov_text) → srt; stream 1 (subrip) → copy.
    let source_subs = ["mov_text".to_string(), "subrip".to_string()];
    let mut opts = opts_software_x265();
    opts.source_subtitle_codecs = &source_subs;
    let cmd = build_ffmpeg_command("/in/a.mp4", "/out/a.mkv", &opts);
    let args = args_of(&cmd);
    assert!(args.windows(2).any(|w| w == ["-c:s:0", "srt"]));
    assert!(args.windows(2).any(|w| w == ["-c:s:1", "copy"]));
    // The fallback global form must NOT be emitted when per-stream args
    // are present, otherwise it would override the per-stream choice.
    assert!(!args.windows(2).any(|w| w == ["-c:s", "copy"]));
}

#[test]
fn mkv_passes_image_subs_through_with_copy() {
    // hdmv_pgs_subtitle (Blu-ray PGS) is image-based and CAN'T be turned
    // into text. It must be copied through as-is — never transcoded.
    let source_subs = ["hdmv_pgs_subtitle".to_string()];
    let mut opts = opts_software_x265();
    opts.source_subtitle_codecs = &source_subs;
    let cmd = build_ffmpeg_command("/in/a.mkv", "/out/a.mkv", &opts);
    let args = args_of(&cmd);
    assert!(args.windows(2).any(|w| w == ["-c:s:0", "copy"]));
    assert!(!args.iter().any(|a| a == "srt"));
}

#[test]
fn mkv_per_stream_includes_sidecar_indices() {
    // 1 source mov_text + 2 sidecar SRTs → output streams 0,1,2.
    // Per-stream args should cover all three.
    let subs = [
        SubtitleInput {
            path: "/in/a.en.srt".into(),
            language: None,
        },
        SubtitleInput {
            path: "/in/a.fr.srt".into(),
            language: None,
        },
    ];
    let source_subs = ["mov_text".to_string()];
    let mut opts = opts_software_x265();
    opts.subtitles = &subs;
    opts.source_subtitle_codecs = &source_subs;
    let cmd = build_ffmpeg_command("/in/a.mp4", "/out/a.mkv", &opts);
    let args = args_of(&cmd);
    assert!(args.windows(2).any(|w| w == ["-c:s:0", "srt"]));
    assert!(args.windows(2).any(|w| w == ["-c:s:1", "copy"]));
    assert!(args.windows(2).any(|w| w == ["-c:s:2", "copy"]));
}

#[test]
fn mp4_container_uses_selective_mapping_and_mov_text() {
    let mut opts = opts_software_x265();
    opts.container = Container::Mp4;
    let cmd = build_ffmpeg_command("/in/a.mkv", "/out/a.mp4", &opts);
    let args = args_of(&cmd);
    // Selective mapping: video required, audio + subs optional
    assert!(args.windows(2).any(|w| w == ["-map", "0:v"]));
    assert!(args.windows(2).any(|w| w == ["-map", "0:a?"]));
    assert!(args.windows(2).any(|w| w == ["-map", "0:s?"]));
    // No bare `-map 0`
    assert!(!args.windows(2).any(|w| w == ["-map", "0"]));
    // Subtitles get transcoded to mov_text; no data/attachment copy
    assert!(args.windows(2).any(|w| w == ["-c:s", "mov_text"]));
    assert!(!args.windows(2).any(|w| w == ["-c:s", "copy"]));
    assert!(!args.windows(2).any(|w| w == ["-c:d", "copy"]));
    assert!(!args.windows(2).any(|w| w == ["-c:t", "copy"]));
}

#[test]
fn vaapi_backend_emits_preamble_and_video_filter() {
    let mut opts = opts_software_x265();
    opts.backend = Backend::Vaapi;
    let cmd = build_ffmpeg_command("/in/a.mp4", "/out/a.mkv", &opts);
    let args = args_of(&cmd);
    // VAAPI device init must come before -i
    let dev_idx = args
        .iter()
        .position(|a| a == "-vaapi_device")
        .expect("has -vaapi_device");
    let input_idx = args.iter().position(|a| a == "-i").expect("has -i");
    assert!(dev_idx < input_idx, "preamble must precede -i");
    assert_eq!(args[dev_idx + 1], "/dev/dri/renderD128");
    // VAAPI requires the upload filter
    assert!(
        args.windows(2)
            .any(|w| w == ["-vf", "format=nv12,hwupload"])
    );
    // VAAPI uses hevc_vaapi for x265 with -qp
    assert!(args.windows(2).any(|w| w == ["-c:v", "hevc_vaapi"]));
    assert!(args.iter().any(|a| a == "-qp"));
    // VAAPI has no preset concept — `-preset` should be absent
    assert!(!args.iter().any(|a| a == "-preset"));
}

#[test]
fn nvenc_backend_emits_extra_post_rc_vbr() {
    let mut opts = opts_software_x265();
    opts.backend = Backend::Nvenc;
    let cmd = build_ffmpeg_command("/in/a.mp4", "/out/a.mkv", &opts);
    let args = args_of(&cmd);
    assert!(args.windows(2).any(|w| w == ["-c:v", "hevc_nvenc"]));
    assert!(args.windows(2).any(|w| w == ["-rc", "vbr"]));
    assert!(args.iter().any(|a| a == "-cq"));
}

#[test]
fn nvenc_routes_decode_through_cuda_before_input() {
    // -hwaccel applies to the next -i, so it must appear before the main
    // input. Verify both flags are present and ordered correctly.
    let mut opts = opts_software_x265();
    opts.backend = Backend::Nvenc;
    let cmd = build_ffmpeg_command("/in/a.mp4", "/out/a.mkv", &opts);
    let args = args_of(&cmd);
    let hw_idx = args
        .iter()
        .position(|a| a == "-hwaccel")
        .expect("has -hwaccel");
    let input_idx = args.iter().position(|a| a == "-i").expect("has -i");
    assert!(hw_idx < input_idx, "-hwaccel must precede -i");
    assert_eq!(args[hw_idx + 1], "cuda");
    assert!(
        args.windows(2)
            .any(|w| w == ["-hwaccel_output_format", "cuda"])
    );
}

#[test]
fn explicit_preset_overrides_backend_default() {
    let mut opts = opts_software_x265();
    opts.preset = Some("slow");
    let cmd = build_ffmpeg_command("/in/a.mp4", "/out/a.mkv", &opts);
    let args = args_of(&cmd);
    assert!(args.windows(2).any(|w| w == ["-preset", "slow"]));
    assert!(!args.windows(2).any(|w| w == ["-preset", "medium"]));
}

#[test]
fn sidecar_subtitle_inputs_added_after_main_input_and_mapped() {
    let subs = [
        SubtitleInput {
            path: "/in/a.en.srt".into(),
            language: Some("en".into()),
        },
        SubtitleInput {
            path: "/in/a.fr.srt".into(),
            language: Some("fr".into()),
        },
    ];
    let source_subs = ["subrip".to_string(), "subrip".to_string()];
    let mut opts = opts_software_x265();
    opts.subtitles = &subs;
    opts.source_subtitle_codecs = &source_subs;
    let cmd = build_ffmpeg_command("/in/a.mp4", "/out/a.mkv", &opts);
    let args = args_of(&cmd);
    // Three -i in order: main input, sub1, sub2
    let inputs: Vec<&String> = args
        .iter()
        .enumerate()
        .filter(|(i, a)| a.as_str() == "-i" && *i + 1 < args.len())
        .map(|(i, _)| &args[i + 1])
        .collect();
    assert_eq!(inputs.len(), 3);
    assert_eq!(inputs[0], "file:/in/a.mp4");
    assert_eq!(inputs[1], "file:/in/a.en.srt");
    assert_eq!(inputs[2], "file:/in/a.fr.srt");
    // Sidecar maps reference inputs 1 and 2
    assert!(args.windows(2).any(|w| w == ["-map", "1"]));
    assert!(args.windows(2).any(|w| w == ["-map", "2"]));
    // Language metadata indices start from the source-subtitle count
    assert!(
        args.windows(2)
            .any(|w| w == ["-metadata:s:s:2", "language=en"])
    );
    assert!(
        args.windows(2)
            .any(|w| w == ["-metadata:s:s:3", "language=fr"])
    );
}

#[test]
fn subtitle_without_language_skips_metadata() {
    let subs = [SubtitleInput {
        path: "/in/a.srt".into(),
        language: None,
    }];
    let mut opts = opts_software_x265();
    opts.subtitles = &subs;
    let cmd = build_ffmpeg_command("/in/a.mp4", "/out/a.mkv", &opts);
    let args = args_of(&cmd);
    assert!(!args.iter().any(|a| a.starts_with("-metadata:s:s:")));
}

#[test]
fn output_path_is_last_argument() {
    let cmd = build_ffmpeg_command(
        "/in/a.mp4",
        "/out/dir/a.mkv",
        &opts_software_x265(),
    );
    let args = args_of(&cmd);
    assert_eq!(args.last().map(String::as_str), Some("file:/out/dir/a.mkv"));
}

#[test]
fn paths_with_colons_get_file_protocol_prefix() {
    // Reproduces the gvfs SMB-mount case: a path like
    // `…/smb-share:server=…` would otherwise look like a `protocol:options`
    // pair to ffmpeg and fail to open. The `file:` prefix forces the file
    // protocol regardless of what's in the path.
    let input = "/run/user/1000/gvfs/smb-share:server=192.168.1.134,share=tv/Firefly (2002)/ep1.mp4";
    let output = "/run/user/1000/gvfs/smb-share:server=192.168.1.134,share=tv/Firefly (2002)-converted/ep1.mkv";
    let cmd = build_ffmpeg_command(input, output, &opts_software_x265());
    let args = args_of(&cmd);

    let i_idx = args.iter().position(|a| a == "-i").expect("has -i");
    assert_eq!(
        args[i_idx + 1],
        "file:/run/user/1000/gvfs/smb-share:server=192.168.1.134,share=tv/Firefly (2002)/ep1.mp4"
    );
    assert_eq!(
        args.last().map(String::as_str),
        Some(
            "file:/run/user/1000/gvfs/smb-share:server=192.168.1.134,share=tv/Firefly (2002)-converted/ep1.mkv"
        )
    );
}

fn vf_arg(args: &[String]) -> Option<&str> {
    let i = args.iter().position(|a| a == "-vf")?;
    args.get(i + 1).map(String::as_str)
}

#[test]
fn upscale_none_emits_no_video_filter_on_software() {
    // Sanity: default (Upscale::Native) on a backend with no native
    // video_filter (software) means no -vf at all.
    let cmd = build_ffmpeg_command(
        "/in/a.mp4",
        "/out/a.mkv",
        &opts_software_x265(),
    );
    let args = args_of(&cmd);
    assert!(!args.iter().any(|a| a == "-vf"));
}

#[test]
fn upscale_1080p_software_emits_cpu_scale_pad_filter() {
    let mut opts = opts_software_x265();
    opts.upscale = Upscale::To1080p;
    let cmd = build_ffmpeg_command("/in/a.mp4", "/out/a.mkv", &opts);
    let args = args_of(&cmd);
    let vf = vf_arg(&args).expect("has -vf");
    assert!(vf.contains("scale=1920:1080:flags=lanczos"));
    assert!(vf.contains("pad=1920:1080:(ow-iw)/2:(oh-ih)/2"));
    assert!(!vf.contains("scale_cuda"));
}

#[test]
fn upscale_1080p_nvenc_emits_cuda_scale_with_hwdownload_pad_hwupload() {
    let mut opts = opts_software_x265();
    opts.backend = Backend::Nvenc;
    opts.upscale = Upscale::To1080p;
    let cmd = build_ffmpeg_command("/in/a.mp4", "/out/a.mkv", &opts);
    let args = args_of(&cmd);
    let vf = vf_arg(&args).expect("has -vf");
    assert!(vf.contains("scale_cuda=1920:1080:force_original_aspect_ratio=decrease"));
    assert!(vf.contains("hwdownload,format=nv12"));
    assert!(vf.ends_with("hwupload_cuda"));
}

#[test]
fn upscale_1080p_vaapi_chains_cpu_scale_before_backend_hwupload() {
    // VAAPI's backend filter is `format=nv12,hwupload`. With upscaling on,
    // the CPU scale+pad must come first so the padded frames are what get
    // moved onto the VAAPI device.
    let mut opts = opts_software_x265();
    opts.backend = Backend::Vaapi;
    opts.upscale = Upscale::To1080p;
    let cmd = build_ffmpeg_command("/in/a.mp4", "/out/a.mkv", &opts);
    let args = args_of(&cmd);
    let vf = vf_arg(&args).expect("has -vf");
    let scale_idx = vf.find("scale=1920:1080").expect("has cpu scale");
    let upload_idx = vf.find("hwupload").expect("has hwupload");
    assert!(
        scale_idx < upload_idx,
        "scale must precede hwupload, got: {vf}"
    );
    assert!(vf.contains("format=nv12,hwupload"));
}

#[test]
fn merge_only_suppresses_upscale_filter() {
    // merge_only stream-copies the video — pixels aren't touched, so any
    // requested upscale must be silently dropped (not just no-op'd).
    let mut opts = opts_software_x265();
    opts.merge_only = true;
    opts.upscale = Upscale::To1080p;
    let cmd = build_ffmpeg_command("/in/a.mkv", "/out/a.mkv", &opts);
    let args = args_of(&cmd);
    assert!(!args.iter().any(|a| a == "-vf"));
    assert!(args.windows(2).any(|w| w == ["-c:v", "copy"]));
}

#[test]
fn merge_only_emits_video_copy_and_omits_encoder_args() {
    let mut opts = opts_software_x265();
    opts.merge_only = true;
    let cmd = build_ffmpeg_command("/in/a.mkv", "/out/a.mkv", &opts);
    let args = args_of(&cmd);
    // Stream copy the video — no libx265, no -crf, no -preset, no filter.
    assert!(args.windows(2).any(|w| w == ["-c:v", "copy"]));
    assert!(!args.iter().any(|a| a == "libx265"));
    assert!(!args.iter().any(|a| a == "-crf"));
    assert!(!args.iter().any(|a| a == "-preset"));
    assert!(!args.iter().any(|a| a == "-vf"));
}

#[test]
fn merge_only_skips_backend_preamble() {
    // Backend init (e.g. VAAPI device, NVENC -hwaccel) is pointless when
    // we're not touching the video stream — it should be suppressed so a
    // user without a working GPU can still merge subs with backend=vaapi.
    let mut opts = opts_software_x265();
    opts.backend = Backend::Vaapi;
    opts.merge_only = true;
    let cmd = build_ffmpeg_command("/in/a.mkv", "/out/a.mkv", &opts);
    let args = args_of(&cmd);
    assert!(!args.iter().any(|a| a == "-vaapi_device"));
    assert!(!args.iter().any(|a| a == "-hwaccel"));
    assert!(args.windows(2).any(|w| w == ["-c:v", "copy"]));
}

#[test]
fn merge_only_still_muxes_sidecar_subtitles() {
    // The whole point of merge mode: stream-copy video while pulling in
    // sidecar SRTs as new subtitle tracks.
    let subs = [SubtitleInput {
        path: "/in/a.en.srt".into(),
        language: Some("en".into()),
    }];
    let mut opts = opts_software_x265();
    opts.merge_only = true;
    opts.subtitles = &subs;
    let cmd = build_ffmpeg_command("/in/a.mkv", "/out/a.mkv", &opts);
    let args = args_of(&cmd);
    // Sidecar input + map + language metadata still emitted.
    let inputs: Vec<&String> = args
        .iter()
        .enumerate()
        .filter(|(i, a)| a.as_str() == "-i" && *i + 1 < args.len())
        .map(|(i, _)| &args[i + 1])
        .collect();
    assert_eq!(inputs.len(), 2);
    assert_eq!(inputs[1], "file:/in/a.en.srt");
    assert!(args.windows(2).any(|w| w == ["-map", "1"]));
    assert!(
        args.windows(2)
            .any(|w| w == ["-metadata:s:s:0", "language=en"])
    );
    // Audio still copies; video is the only thing that switched to copy
    // mode (audio was already copy in normal mode, so this reaffirms it).
    assert!(args.windows(2).any(|w| w == ["-c:a", "copy"]));
}

fn opts_web() -> EncodeOptions<'static> {
    let mut opts = opts_software_x265();
    opts.profile = EncodingProfile::Web;
    opts
}

#[test]
fn web_profile_emits_libx264_high_level40_yuv420p() {
    let cmd = build_ffmpeg_command(
        "/in/a.mkv",
        "/out/a.web.mp4",
        &opts_web(),
    );
    let args = args_of(&cmd);
    assert!(args.windows(2).any(|w| w == ["-c:v", "libx264"]));
    assert!(args.windows(2).any(|w| w == ["-profile:v", "high"]));
    assert!(args.windows(2).any(|w| w == ["-level", "4.0"]));
    assert!(args.windows(2).any(|w| w == ["-pix_fmt", "yuv420p"]));
    assert!(args.windows(2).any(|w| w == ["-crf", "20"]));
    assert!(args.windows(2).any(|w| w == ["-preset", "slow"]));
}

#[test]
fn web_profile_emits_aac_stereo_192k_overriding_audio_copy() {
    // Web bakes audio settings into the encoder fragment; the default
    // `-c:a copy` for other modes must NOT also be emitted, or the
    // copy would override the per-codec choice.
    let cmd = build_ffmpeg_command(
        "/in/a.mkv",
        "/out/a.web.mp4",
        &opts_web(),
    );
    let args = args_of(&cmd);
    assert!(args.windows(2).any(|w| w == ["-c:a", "aac"]));
    assert!(args.windows(2).any(|w| w == ["-ac", "2"]));
    assert!(args.windows(2).any(|w| w == ["-b:a", "192k"]));
    assert!(!args.windows(2).any(|w| w == ["-c:a", "copy"]));
}

#[test]
fn web_profile_emits_movflags_faststart() {
    let cmd = build_ffmpeg_command(
        "/in/a.mkv",
        "/out/a.web.mp4",
        &opts_web(),
    );
    let args = args_of(&cmd);
    assert!(args.windows(2).any(|w| w == ["-movflags", "+faststart"]));
}

#[test]
fn web_profile_uses_mp4_mapping_and_mov_text_subs() {
    // Web is always MP4-on-output regardless of `opts.container`. That
    // means selective stream mapping plus mov_text for subtitles. Even
    // if a test leaves `container: Mkv`, Web should override.
    let mut opts = opts_web();
    opts.container = Container::Mkv;
    let cmd = build_ffmpeg_command("/in/a.mkv", "/out/a.web.mp4", &opts);
    let args = args_of(&cmd);
    assert!(args.windows(2).any(|w| w == ["-map", "0:v"]));
    assert!(args.windows(2).any(|w| w == ["-map", "0:a?"]));
    assert!(args.windows(2).any(|w| w == ["-map", "0:s?"]));
    assert!(!args.windows(2).any(|w| w == ["-map", "0"]));
    assert!(args.windows(2).any(|w| w == ["-c:s", "mov_text"]));
}

#[test]
fn web_profile_suppresses_backend_preamble() {
    // Web is CPU libx264 only; any backend preamble from the user's
    // previously-selected hardware backend must not leak into the
    // ffmpeg command line.
    let mut opts = opts_web();
    opts.backend = Backend::Vaapi;
    let cmd = build_ffmpeg_command("/in/a.mkv", "/out/a.web.mp4", &opts);
    let args = args_of(&cmd);
    assert!(!args.iter().any(|a| a == "-vaapi_device"));
    assert!(!args.iter().any(|a| a == "-hwaccel"));
    // And no VAAPI hwupload either.
    assert!(!args.iter().any(|a| a.contains("hwupload")));
}

#[test]
fn web_profile_suppresses_upscale_filter() {
    // Web has its own fixed pixel pipeline; the configured `upscale`
    // field must not produce a `-vf` argument.
    let mut opts = opts_web();
    opts.upscale = Upscale::To1080p;
    let cmd = build_ffmpeg_command("/in/a.mkv", "/out/a.web.mp4", &opts);
    let args = args_of(&cmd);
    assert!(!args.iter().any(|a| a == "-vf"));
}

#[test]
fn web_profile_keeps_sidecar_subtitle_inputs() {
    // Sidecar SRTs still get muxed in (as mov_text) when --embed-subtitles
    // or --merge-subtitles was passed for a Standard run that the user
    // then re-ran as Web. The web profile uses MP4 mapping, so subs land
    // as mov_text. Language metadata still gets emitted.
    let subs = [SubtitleInput {
        path: "/in/a.en.srt".into(),
        language: Some("en".into()),
    }];
    let mut opts = opts_web();
    opts.subtitles = &subs;
    let cmd = build_ffmpeg_command("/in/a.mkv", "/out/a.web.mp4", &opts);
    let args = args_of(&cmd);
    let inputs: Vec<&String> = args
        .iter()
        .enumerate()
        .filter(|(i, a)| a.as_str() == "-i" && *i + 1 < args.len())
        .map(|(i, _)| &args[i + 1])
        .collect();
    assert_eq!(inputs.len(), 2);
    assert_eq!(inputs[1], "file:/in/a.en.srt");
    assert!(args.windows(2).any(|w| w == ["-map", "1"]));
    assert!(
        args.windows(2)
            .any(|w| w == ["-metadata:s:s:0", "language=en"])
    );
}

fn opts_hls() -> EncodeOptions<'static> {
    let mut opts = opts_software_x265();
    opts.profile = EncodingProfile::Hls;
    opts
}

#[test]
fn hls_profile_uses_filter_complex_splitting_to_three_renditions() {
    let cmd =
        build_ffmpeg_command("/in/a.mkv", "/out/a.hls", &opts_hls());
    let args = args_of(&cmd);
    let idx = args
        .iter()
        .position(|a| a == "-filter_complex")
        .expect("has -filter_complex");
    let filter = &args[idx + 1];
    // One split that fans out to three branches, each tagged for later
    // `-map "[vNNNp]"` lookups.
    assert!(filter.contains("split=3"));
    assert!(filter.contains("[v360p]"));
    assert!(filter.contains("[v720p]"));
    assert!(filter.contains("[v1080p]"));
    assert!(filter.contains("scale=-2:360"));
    assert!(filter.contains("scale=-2:720"));
    assert!(filter.contains("scale=-2:1080"));
}

#[test]
fn hls_profile_emits_per_variant_libx264_blocks_in_ladder_order() {
    let cmd =
        build_ffmpeg_command("/in/a.mkv", "/out/a.hls", &opts_hls());
    let args = args_of(&cmd);
    // Three video output streams in order.
    assert!(args.windows(2).any(|w| w == ["-c:v:0", "libx264"]));
    assert!(args.windows(2).any(|w| w == ["-c:v:1", "libx264"]));
    assert!(args.windows(2).any(|w| w == ["-c:v:2", "libx264"]));
    // Bitrate ladder steps from the profile module.
    assert!(args.windows(2).any(|w| w == ["-b:v:0", "800k"]));
    assert!(args.windows(2).any(|w| w == ["-b:v:1", "2800k"]));
    assert!(args.windows(2).any(|w| w == ["-b:v:2", "5000k"]));
    // Profile / level escalates with bitrate so the master playlist
    // can advertise the right CODECS hints.
    assert!(args.windows(2).any(|w| w == ["-profile:v:0", "main"]));
    assert!(args.windows(2).any(|w| w == ["-profile:v:2", "high"]));
    assert!(args.windows(2).any(|w| w == ["-level:v:0", "3.0"]));
    assert!(args.windows(2).any(|w| w == ["-level:v:2", "4.0"]));
}

#[test]
fn hls_profile_emits_aac_stereo_per_variant() {
    let cmd =
        build_ffmpeg_command("/in/a.mkv", "/out/a.hls", &opts_hls());
    let args = args_of(&cmd);
    assert!(args.windows(2).any(|w| w == ["-c:a:0", "aac"]));
    assert!(args.windows(2).any(|w| w == ["-c:a:1", "aac"]));
    assert!(args.windows(2).any(|w| w == ["-c:a:2", "aac"]));
    assert!(args.windows(2).any(|w| w == ["-ac:a:0", "2"]));
    assert!(args.windows(2).any(|w| w == ["-b:a:0", "96k"]));
    assert!(args.windows(2).any(|w| w == ["-b:a:1", "128k"]));
}

#[test]
fn hls_profile_forces_keyframes_on_segment_boundary_per_variant() {
    // Without forced keyframes ffmpeg picks its own GOP boundaries
    // and segments end up varying length / not starting on I-frames.
    let cmd =
        build_ffmpeg_command("/in/a.mkv", "/out/a.hls", &opts_hls());
    let args = args_of(&cmd);
    let want = "expr:gte(t,n_forced*6)";
    for i in 0..3 {
        let key = format!("-force_key_frames:v:{i}");
        assert!(
            args.windows(2).any(|w| w[0] == key && w[1] == want),
            "missing {key} {want}"
        );
    }
}

#[test]
fn hls_profile_emits_var_stream_map_naming_360p_720p_1080p() {
    let cmd =
        build_ffmpeg_command("/in/a.mkv", "/out/a.hls", &opts_hls());
    let args = args_of(&cmd);
    let idx = args
        .iter()
        .position(|a| a == "-var_stream_map")
        .expect("has -var_stream_map");
    assert_eq!(
        args[idx + 1],
        "v:0,a:0,name:360p v:1,a:1,name:720p v:2,a:2,name:1080p"
    );
}

#[test]
fn hls_profile_segment_and_playlist_templates_live_under_output_dir() {
    let cmd = build_ffmpeg_command(
        "/in/a.mkv",
        "/out/Show.S01E01.hls",
        &opts_hls(),
    );
    let args = args_of(&cmd);
    let seg_idx = args
        .iter()
        .position(|a| a == "-hls_segment_filename")
        .expect("has -hls_segment_filename");
    assert_eq!(args[seg_idx + 1], "/out/Show.S01E01.hls/%v/segment_%03d.ts");
    // Final positional arg is the variant playlist template.
    assert_eq!(
        args.last().map(String::as_str),
        Some("/out/Show.S01E01.hls/%v/playlist.m3u8")
    );
}

#[test]
fn hls_profile_requests_vod_master_playlist_and_mpegts_segments() {
    let cmd =
        build_ffmpeg_command("/in/a.mkv", "/out/a.hls", &opts_hls());
    let args = args_of(&cmd);
    assert!(args.windows(2).any(|w| w == ["-f", "hls"]));
    assert!(args.windows(2).any(|w| w == ["-hls_playlist_type", "vod"]));
    assert!(
        args.windows(2)
            .any(|w| w == ["-hls_segment_type", "mpegts"])
    );
    assert!(
        args.windows(2)
            .any(|w| w == ["-master_pl_name", "master.m3u8"])
    );
    // independent_segments is what lets the player switch renditions
    // without buffering across a GOP.
    assert!(
        args.windows(2)
            .any(|w| w == ["-hls_flags", "independent_segments"])
    );
}

#[test]
fn hls_profile_ignores_backend_preamble_and_upscale_filter() {
    // Like Web, HLS is its own CPU x264 pipeline and must suppress any
    // backend hwaccel preamble or `Upscale` `-vf` from leaking through.
    let mut opts = opts_hls();
    opts.backend = Backend::Vaapi;
    opts.upscale = Upscale::To1080p;
    let cmd = build_ffmpeg_command("/in/a.mkv", "/out/a.hls", &opts);
    let args = args_of(&cmd);
    assert!(!args.iter().any(|a| a == "-vaapi_device"));
    assert!(!args.iter().any(|a| a == "-hwaccel"));
    assert!(!args.iter().any(|a| a == "-vf"));
}

#[test]
fn whole_command_for_a_standard_encode() {
    let mut opts = opts_software_x265();
    opts.backend = Backend::Nvenc;
    opts.upscale = Upscale::Native;
    let cmd = build_ffmpeg_command("in.mkv", "out.mkv", &opts);
    assert_eq!(
        args_of(&cmd),
        [
            "-hide_banner", "-loglevel", "warning", "-nostats", "-progress", "pipe:1", "-n",
            "-ignore_unknown", "-hwaccel", "cuda", "-hwaccel_output_format", "cuda", "-i",
            "file:in.mkv", "-map", "0", "-c:v", "hevc_nvenc", "-cq", "23", "-preset", "p4", "-rc",
            "vbr", "-c:a", "copy", "-c:s", "copy", "-c:d", "copy", "-c:t", "copy", "file:out.mkv",
        ]
    );
}

#[test]
fn whole_command_for_a_bundle() {
    let cmd = build_ffmpeg_command("in.mkv", "b.hls", &opts_hls());
    let args = args_of(&cmd);
    assert_eq!(args[8], "-i");
    assert_eq!(args[9], "file:in.mkv");
    assert_eq!(
        args[11],
        "[0:v]split=3[v360pin][v720pin][v1080pin];\
         [v360pin]scale=-2:360:flags=lanczos,setsar=1[v360p];\
         [v720pin]scale=-2:720:flags=lanczos,setsar=1[v720p];\
         [v1080pin]scale=-2:1080:flags=lanczos,setsar=1[v1080p]"
    );
    assert_eq!(args[12..16], ["-map", "[v360p]", "-map", "0:a:0?"]);
    let shared = args.iter().position(|a| a == "-preset").unwrap();
    assert_eq!(
        args[shared..shared + 6],
        ["-preset", "slow", "-pix_fmt", "yuv420p", "-sc_threshold", "0"]
    );
    assert_eq!(args.len(), 12 + 3 * 24 + 6 + 19);
}

#[test]
fn presets_are_ignored_by_vaapi() {
    let mut opts = opts_software_x265();
    opts.backend = Backend::Vaapi;
    let plain = args_of(&build_ffmpeg_command("a", "b", &opts));
    opts.preset = Some("slow");
    assert_eq!(args_of(&build_ffmpeg_command("a", "b", &opts)), plain);
}

#[test]
fn web_and_merge_runs_ignore_the_encoder_choices() {
    let mut web = opts_web();
    let plain = args_of(&build_ffmpeg_command("a", "b", &web));
    web.codec = Codec::Av1;
    web.backend = Backend::Nvenc;
    web.container = Container::Mp4;
    web.quality = 51;
    web.preset = Some("p7");
    web.upscale = Upscale::To1080p;
    web.merge_only = true;
    assert_eq!(args_of(&build_ffmpeg_command("a", "b", &web)), plain);
    let mut merge = opts_software_x265();
    merge.merge_only = true;
    let plain = args_of(&build_ffmpeg_command("a", "b", &merge));
    merge.codec = Codec::Av1;
    merge.backend = Backend::Nvenc;
    merge.quality = 51;
    merge.preset = Some("p7");
    merge.upscale = Upscale::To1080p;
    assert_eq!(args_of(&build_ffmpeg_command("a", "b", &merge)), plain);
}

#[test]
fn subtitle_codecs_and_protocol_prefix() {
    assert_eq!(subtitle_codec_for_mkv("mov_text"), "srt");
    assert_eq!(subtitle_codec_for_mkv("MOV_TEXT"), "copy");
    assert_eq!(subtitle_codec_for_mkv(""), "copy");
    assert_eq!(file_protocol_arg("a:b"), "file:a:b");
}

#[test]
fn directories_are_prepared_for_each_profile() {
    assert_eq!(prepare_output_dirs("/o/a.mkv", EncodingProfile::Standard), ["/o"]);
    assert_eq!(prepare_output_dirs("a.mp4", EncodingProfile::Web), [""]);
    assert!(prepare_output_dirs("/", EncodingProfile::Standard).is_empty());
    assert_eq!(
        prepare_output_dirs("/o/a.hls", EncodingProfile::Hls),
        ["/o/a.hls", "/o/a.hls/360p", "/o/a.hls/720p", "/o/a.hls/1080p"]
    );
}
