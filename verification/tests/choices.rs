use media_convert::backend::Backend;
use media_convert::codec::Codec;
use media_convert::container::Container;
use media_convert::profile::{hls_variants, web_encoder_args, EncodingProfile, HLS_SEGMENT_SECONDS};
use media_convert::upscale::Upscale;

#[test]
fn extension_matches_format_name() {
    assert_eq!(Container::Mkv.extension(), "mkv");
    assert_eq!(Container::Mp4.extension(), "mp4");
}

#[test]
fn label_matches_format_name() {
    assert_eq!(Container::Mkv.label(), "mkv");
    assert_eq!(Container::Mp4.label(), "mp4");
}

#[test]
fn default_is_mkv() {
    assert_eq!(Container::default(), Container::Mkv);
}

fn kbps(s: &str) -> u32 {
    s.strip_suffix('k').unwrap().parse().unwrap()
}

fn pair(args: &[&str], k: &str) -> Option<String> {
    args.iter()
        .position(|a| *a == k)
        .map(|i| args[i + 1].into())
}

#[test]
fn web_args_pin_libx264_high_at_level_40() {
    let a = web_encoder_args();
    assert_eq!(pair(a, "-c:v").as_deref(), Some("libx264"));
    assert_eq!(pair(a, "-profile:v").as_deref(), Some("high"));
    assert_eq!(pair(a, "-level").as_deref(), Some("4.0"));
    assert_eq!(pair(a, "-pix_fmt").as_deref(), Some("yuv420p"));
}

#[test]
fn web_args_pin_crf_20_preset_slow() {
    let a = web_encoder_args();
    assert_eq!(pair(a, "-crf").as_deref(), Some("20"));
    assert_eq!(pair(a, "-preset").as_deref(), Some("slow"));
}

#[test]
fn web_args_pin_aac_stereo_192k() {
    let a = web_encoder_args();
    assert_eq!(pair(a, "-c:a").as_deref(), Some("aac"));
    assert_eq!(pair(a, "-ac").as_deref(), Some("2"));
    assert_eq!(pair(a, "-b:a").as_deref(), Some("192k"));
}

#[test]
fn web_args_emit_movflags_faststart() {
    // Without +faststart the moov atom lands at the end and browsers
    // have to download the whole file before starting playback.
    let a = web_encoder_args();
    assert_eq!(pair(a, "-movflags").as_deref(), Some("+faststart"));
}

#[test]
fn default_is_standard() {
    assert_eq!(EncodingProfile::default(), EncodingProfile::Standard);
}

#[test]
fn profile_label_matches_value_name() {
    assert_eq!(EncodingProfile::Standard.label(), "standard");
    assert_eq!(EncodingProfile::Web.label(), "web");
    assert_eq!(EncodingProfile::Hls.label(), "hls");
}

#[test]
fn hls_variants_ladder_is_360_720_1080_in_order() {
    let v: Vec<&str> = hls_variants().iter().map(|h| h.name).collect();
    assert_eq!(v, ["360p", "720p", "1080p"]);
    let heights: Vec<u32> = hls_variants().iter().map(|h| h.height).collect();
    assert_eq!(heights, [360, 720, 1080]);
}

#[test]
fn hls_variant_bitrates_monotonically_increase() {
    // A misordered ladder would confuse adaptive players. Compare
    // the leading-digit run of each bitrate string (they're all `k`
    // suffixed kbps values).
    let mut last = 0;
    for v in hls_variants() {
        let b = kbps(v.video_bitrate);
        assert!(
            b > last,
            "variant {} bitrate {b} not larger than previous {last}",
            v.name
        );
        last = b;
    }
}

#[test]
fn upscale_label_matches_value_name() {
    assert_eq!(Upscale::Native.label(), "none");
    assert_eq!(Upscale::To1080p.label(), "1080p");
}

#[test]
fn default_is_none() {
    assert_eq!(Upscale::default(), Upscale::Native);
}

#[test]
fn none_produces_no_filter_for_any_backend() {
    for b in [
        Backend::Software,
        Backend::Nvenc,
        Backend::Qsv,
        Backend::Vaapi,
    ] {
        assert!(Upscale::Native.filter(b).is_none());
    }
}

#[test]
fn software_uses_cpu_scale_and_pad_at_1080p() {
    let f = Upscale::To1080p.filter(Backend::Software).unwrap();
    assert!(f.contains("scale=1920:1080:flags=lanczos"));
    assert!(f.contains("force_original_aspect_ratio=decrease"));
    assert!(f.contains("pad=1920:1080:(ow-iw)/2:(oh-ih)/2"));
    assert!(f.contains("setsar=1"));
    assert!(!f.contains("scale_cuda"));
}

#[test]
fn qsv_and_vaapi_use_cpu_scale_path() {
    // QSV has no `scale_qsv` in the stock config (no preamble hwaccel),
    // so the CPU scale path applies. VAAPI also scales on CPU here; its
    // own `format=nv12,hwupload` filter is appended by the caller.
    for b in [Backend::Qsv, Backend::Vaapi] {
        let f = Upscale::To1080p.filter(b).unwrap();
        assert!(f.contains("scale=1920:1080:flags=lanczos"));
        assert!(!f.contains("scale_cuda"));
    }
}

#[test]
fn nvenc_uses_cuda_scale_with_hwdownload_pad_hwupload() {
    let f = Upscale::To1080p.filter(Backend::Nvenc).unwrap();
    // GPU-side resize first
    assert!(f.contains("scale_cuda=1920:1080:force_original_aspect_ratio=decrease"));
    assert!(f.contains("interp_algo=lanczos"));
    // Round-trip through system RAM for the pad
    assert!(f.contains("hwdownload,format=nv12"));
    assert!(f.contains("pad=1920:1080:(ow-iw)/2:(oh-ih)/2"));
    assert!(f.contains("setsar=1"));
    // Re-upload to GPU so NVENC consumes CUDA frames
    assert!(f.ends_with("hwupload_cuda"));
}

#[test]
fn codecs_match_their_probe_names() {
    assert!(Codec::X265.matches_source("hevc"));
    assert!(Codec::X265.matches_source("HEVC"));
    assert!(Codec::X265.matches_source("h265"));
    assert!(!Codec::X265.matches_source("h264"));
    assert!(!Codec::X265.matches_source("av1"));
    assert!(Codec::Av1.matches_source("AV1"));
    assert!(!Codec::Av1.matches_source("hevc"));
    assert!(!Codec::Av1.matches_source(""));
    assert_eq!(Codec::X265.label(), "x265");
    assert_eq!(Codec::Av1.label(), "av1");
}

#[test]
fn backends_are_configured_as_documented() {
    let c = Backend::Software.config(Codec::X265);
    assert_eq!((c.encoder, c.quality_flag, c.default_quality), ("libx265", "-crf", 23));
    assert_eq!(c.default_preset, Some("medium"));
    assert!(c.preamble.is_empty() && c.extra_post.is_empty() && c.video_filter.is_none());
    let c = Backend::Software.config(Codec::Av1);
    assert_eq!((c.encoder, c.quality_flag, c.default_quality), ("libsvtav1", "-crf", 30));
    assert_eq!(c.default_preset, Some("8"));
    let c = Backend::Nvenc.config(Codec::Av1);
    assert_eq!((c.encoder, c.quality_flag, c.default_quality), ("av1_nvenc", "-cq", 28));
    assert_eq!(c.default_preset, Some("p4"));
    assert_eq!(c.extra_post, ["-rc", "vbr"]);
    let c = Backend::Qsv.config(Codec::X265);
    assert_eq!((c.encoder, c.quality_flag, c.default_quality), ("hevc_qsv", "-global_quality", 23));
    assert_eq!(c.default_preset, Some("medium"));
    let c = Backend::Vaapi.config(Codec::X265);
    assert_eq!((c.encoder, c.quality_flag, c.default_quality), ("hevc_vaapi", "-qp", 23));
    assert_eq!(c.default_preset, None);
    assert_eq!(c.preamble, ["-vaapi_device", "/dev/dri/renderD128"]);
    assert_eq!(c.video_filter.as_deref(), Some("format=nv12,hwupload"));
    assert_eq!(Backend::Software.label(), "software");
    assert_eq!(Backend::Nvenc.label(), "nvenc");
    assert_eq!(Backend::Qsv.label(), "qsv");
    assert_eq!(Backend::Vaapi.label(), "vaapi");
}

#[test]
fn segments_last_six_seconds() {
    assert_eq!(HLS_SEGMENT_SECONDS, 6);
    let v = &hls_variants()[1];
    assert_eq!(v.width_hint, 1280);
    assert_eq!((v.video_bitrate, v.video_maxrate, v.video_bufsize), ("2800k", "3200k", "5600k"));
    assert_eq!((v.video_profile, v.video_level, v.audio_bitrate), ("main", "3.1", "128k"));
}
