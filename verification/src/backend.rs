//! Encoder backends and the ffmpeg parameters that go with them.

use vstd::prelude::*;
use crate::codec::Codec;
use crate::text;

verus! {

/// Where the video is encoded.
#[derive(Copy, Clone, Debug, PartialEq, Eq, Structural)]
pub enum Backend {
    /// CPU encoders (libx265 / libsvtav1). Best compression, slowest.
    Software,
    /// NVIDIA NVENC (hevc_nvenc / av1_nvenc). Fast, larger files than software.
    Nvenc,
    /// Intel Quick Sync Video (hevc_qsv / av1_qsv). Intel iGPU only.
    Qsv,
    /// VAAPI (Linux). Works with AMD and Intel iGPUs.
    Vaapi,
}

impl Default for Backend {
    fn default() -> (r: Self)
        ensures
            r == Backend::Software,
    {
        Backend::Software
    }
}

/// Concrete ffmpeg invocation parameters for a (codec, backend) pair.
#[derive(Debug)]
pub struct EncoderConfig {
    pub encoder: &'static str,
    /// Flag name for the quality value (e.g. "-crf", "-cq", "-qp").
    pub quality_flag: &'static str,
    /// Default value if the user didn't specify one.
    pub default_quality: u8,
    /// Default preset, or None when the backend has no meaningful preset.
    pub default_preset: Option<&'static str>,
    /// Args inserted before `-i <input>` (e.g. VAAPI device init).
    pub preamble: Vec<String>,
    /// Extra args appended after `-c:v <encoder>` (e.g. `-rc vbr` for NVENC CQ).
    pub extra_post: Vec<String>,
    /// Video filter chain to apply (e.g. `format=nv12,hwupload` for VAAPI).
    pub video_filter: Option<String>,
}

/// The name shown to the user.
pub open spec fn backend_label(b: Backend) -> Seq<char> {
    match b {
        Backend::Software => "software"@,
        Backend::Nvenc => "nvenc"@,
        Backend::Qsv => "qsv"@,
        Backend::Vaapi => "vaapi"@,
    }
}

/// The ffmpeg encoder of a backend.
pub open spec fn encoder_name(b: Backend, c: Codec) -> Seq<char> {
    match (b, c) {
        (Backend::Software, Codec::X265) => "libx265"@,
        (Backend::Software, Codec::Av1) => "libsvtav1"@,
        (Backend::Nvenc, Codec::X265) => "hevc_nvenc"@,
        (Backend::Nvenc, Codec::Av1) => "av1_nvenc"@,
        (Backend::Qsv, Codec::X265) => "hevc_qsv"@,
        (Backend::Qsv, Codec::Av1) => "av1_qsv"@,
        (Backend::Vaapi, Codec::X265) => "hevc_vaapi"@,
        (Backend::Vaapi, Codec::Av1) => "av1_vaapi"@,
    }
}

/// The flag that carries the quality value.
pub open spec fn quality_flag(b: Backend) -> Seq<char> {
    match b {
        Backend::Software => "-crf"@,
        Backend::Nvenc => "-cq"@,
        Backend::Qsv => "-global_quality"@,
        Backend::Vaapi => "-qp"@,
    }
}

/// The quality value where the user gives none.
pub open spec fn default_quality(b: Backend, c: Codec) -> u8 {
    match (b, c) {
        (_, Codec::X265) => 23,
        (Backend::Software, Codec::Av1) => 30,
        (_, Codec::Av1) => 28,
    }
}

/// The preset where the user gives none; VAAPI has no presets.
pub open spec fn default_preset(b: Backend, c: Codec) -> Option<Seq<char>> {
    match (b, c) {
        (Backend::Software, Codec::X265) => Some("medium"@),
        (Backend::Software, Codec::Av1) => Some("8"@),
        (Backend::Nvenc, _) => Some("p4"@),
        (Backend::Qsv, _) => Some("medium"@),
        (Backend::Vaapi, _) => None,
    }
}

/// What has to stand before the input: CUDA decoding for NVENC, the device for
/// VAAPI.
pub open spec fn preamble(b: Backend) -> Seq<Seq<char>> {
    match b {
        Backend::Nvenc => seq!["-hwaccel"@, "cuda"@, "-hwaccel_output_format"@, "cuda"@],
        Backend::Vaapi => seq!["-vaapi_device"@, "/dev/dri/renderD128"@],
        _ => Seq::empty(),
    }
}

/// What follows the encoder's own flags.
pub open spec fn extra_post(b: Backend) -> Seq<Seq<char>> {
    match b {
        Backend::Nvenc => seq!["-rc"@, "vbr"@],
        _ => Seq::empty(),
    }
}

/// The filter chain that a backend needs.
pub open spec fn video_filter(b: Backend) -> Option<Seq<char>> {
    match b {
        Backend::Vaapi => Some("format=nv12,hwupload"@),
        _ => None,
    }
}

impl Backend {
    /// The name shown to the user.
    pub fn label(self) -> (r: &'static str)
        ensures
            r@ == backend_label(self),
    {
        match self {
            Backend::Software => "software",
            Backend::Nvenc => "nvenc",
            Backend::Qsv => "qsv",
            Backend::Vaapi => "vaapi",
        }
    }

    /// The ffmpeg parameters for encoding to `codec` on this backend.
    pub fn config(self, codec: Codec) -> (r: EncoderConfig)
        ensures
            r.encoder@ == encoder_name(self, codec),
            r.quality_flag@ == quality_flag(self),
            r.default_quality == default_quality(self, codec),
            text::opt_str(r.default_preset) == default_preset(self, codec),
            text::texts(r.preamble@) == preamble(self),
            text::texts(r.extra_post@) == extra_post(self),
            text::opt_text(r.video_filter) == video_filter(self),
    {
        let (encoder, default_quality): (&'static str, u8) = match (self, codec) {
            (Backend::Software, Codec::X265) => ("libx265", 23),
            (Backend::Software, Codec::Av1) => ("libsvtav1", 30),
            (Backend::Nvenc, Codec::X265) => ("hevc_nvenc", 23),
            (Backend::Nvenc, Codec::Av1) => ("av1_nvenc", 28),
            (Backend::Qsv, Codec::X265) => ("hevc_qsv", 23),
            (Backend::Qsv, Codec::Av1) => ("av1_qsv", 28),
            (Backend::Vaapi, Codec::X265) => ("hevc_vaapi", 23),
            (Backend::Vaapi, Codec::Av1) => ("av1_vaapi", 28),
        };
        let quality_flag: &'static str = match self {
            Backend::Software => "-crf",
            Backend::Nvenc => "-cq",
            Backend::Qsv => "-global_quality",
            Backend::Vaapi => "-qp",
        };
        let default_preset: Option<&'static str> = match (self, codec) {
            (Backend::Software, Codec::X265) => Some("medium"),
            (Backend::Software, Codec::Av1) => Some("8"),
            (Backend::Nvenc, _) => Some("p4"),
            (Backend::Qsv, _) => Some("medium"),
            (Backend::Vaapi, _) => None,
        };
        let mut before: Vec<String> = Vec::new();
        let mut after: Vec<String> = Vec::new();
        let mut filter: Option<String> = None;
        match self {
            Backend::Nvenc => {
                text::push_text(&mut before, "-hwaccel");
                text::push_text(&mut before, "cuda");
                text::push_text(&mut before, "-hwaccel_output_format");
                text::push_text(&mut before, "cuda");
                text::push_text(&mut after, "-rc");
                text::push_text(&mut after, "vbr");
            },
            Backend::Vaapi => {
                text::push_text(&mut before, "-vaapi_device");
                text::push_text(&mut before, "/dev/dri/renderD128");
                filter = Some("format=nv12,hwupload".to_owned());
            },
            _ => {},
        }
        assert(text::texts(before@) =~= preamble(self));
        assert(text::texts(after@) =~= extra_post(self));
        EncoderConfig {
            encoder,
            quality_flag,
            default_quality,
            default_preset,
            preamble: before,
            extra_post: after,
            video_filter: filter,
        }
    }
}

/// Every default quality is a value that the user could have given.
pub proof fn law_default_quality_in_range(b: Backend, c: Codec)
    ensures
        default_quality(b, c) <= 63,
{
}

/// The defaults that suit each encoder: a quality of 23 for x265 everywhere; for
/// AV1 30 in software and 28 on a device. A preset goes with every backend but
/// VAAPI.
pub proof fn law_defaults_suit_the_encoder(b: Backend, c: Codec)
    ensures
        c == Codec::X265 ==> default_quality(b, c) == 23,
        c == Codec::Av1 && b == Backend::Software ==> default_quality(b, c) == 30,
        c == Codec::Av1 && b != Backend::Software ==> default_quality(b, c) == 28,
        default_preset(b, c) is None <==> b == Backend::Vaapi,
        b == Backend::Software && c == Codec::X265 ==> default_preset(b, c) == Some("medium"@),
        b == Backend::Software && c == Codec::Av1 ==> default_preset(b, c) == Some("8"@),
        b == Backend::Nvenc ==> default_preset(b, c) == Some("p4"@),
        b == Backend::Qsv ==> default_preset(b, c) == Some("medium"@),
{
}

} // verus!
