//! The ffmpeg command line of one encode.

use vstd::prelude::*;
use crate::backend;
use crate::backend::Backend;
use crate::codec::Codec;
use crate::container::Container;
use crate::path;
use crate::profile;
use crate::profile::{EncodingProfile, HLS_SEGMENT_SECONDS};
use crate::text;
use crate::upscale;
use crate::upscale::Upscale;

verus! {

/// A program with its arguments, ready to be run.
#[derive(Debug)]
pub struct CommandLine {
    pub program: &'static str,
    pub args: Vec<String>,
}

/// An external subtitle file to be muxed in.
#[derive(Debug)]
pub struct SubtitleInput {
    pub path: String,
    pub language: Option<String>,
}

/// A subtitle file and its language as texts.
#[verifier::ext_equal]
pub struct SubtitleText {
    pub path: Seq<char>,
    pub language: Option<Seq<char>>,
}

impl View for SubtitleInput {
    type V = SubtitleText;

    open spec fn view(&self) -> SubtitleText {
        SubtitleText { path: self.path@, language: text::opt_text(self.language) }
    }
}

impl Clone for SubtitleInput {
    fn clone(&self) -> (r: Self)
        ensures
            r@ == self@,
    {
        SubtitleInput {
            path: self.path.as_str().to_owned(),
            language: text::copy_text(&self.language),
        }
    }
}

/// How a file is to be encoded.
pub struct EncodeOptions<'a> {
    /// Top-level transcoding mode. `Standard` honors the configurable
    /// codec/backend/container/quality/preset/upscale fields below; `Web` and
    /// `Hls` ignore them all.
    pub profile: EncodingProfile,
    pub codec: Codec,
    pub backend: Backend,
    pub container: Container,
    pub quality: u8,
    /// `None` means: use the backend default. A backend without presets
    /// (VAAPI) gets no `-preset` at all.
    pub preset: Option<&'a str>,
    /// External subtitle files to mux into the output as additional tracks.
    pub subtitles: &'a [SubtitleInput],
    /// `codec_name` (from ffprobe) for each subtitle stream that's already
    /// inside the source video, in source-stream order. The length doubles as
    /// the count of source subtitle streams, used to compute output stream
    /// indices for the subtitle files that are added.
    pub source_subtitle_codecs: &'a [String],
    /// Source-stream indices to drop from the output via `-map -0:N`: streams
    /// with unrecognized codecs that the muxer would otherwise reject.
    pub unmappable_stream_indices: &'a [usize],
    /// Copy the video stream through (`-c:v copy`) instead of encoding it.
    /// Only meaningful for the Standard profile.
    pub merge_only: bool,
    /// Resize the video to a fixed output resolution. Ignored in `merge_only`
    /// mode and outside the Standard profile.
    pub upscale: Upscale,
}

/// The options as texts and numbers.
#[verifier::ext_equal]
pub struct Settings {
    pub profile: EncodingProfile,
    pub codec: Codec,
    pub backend: Backend,
    pub container: Container,
    pub quality: nat,
    pub preset: Option<Seq<char>>,
    pub subtitles: Seq<SubtitleText>,
    pub source_subtitle_codecs: Seq<Seq<char>>,
    pub unmappable: Seq<nat>,
    pub merge_only: bool,
    pub upscale: Upscale,
}

impl<'a> View for EncodeOptions<'a> {
    type V = Settings;

    open spec fn view(&self) -> Settings {
        Settings {
            profile: self.profile,
            codec: self.codec,
            backend: self.backend,
            container: self.container,
            quality: self.quality as nat,
            preset: text::opt_str(self.preset),
            subtitles: self.subtitles@.map_values(|s: SubtitleInput| s@),
            source_subtitle_codecs: text::texts(self.source_subtitle_codecs@),
            unmappable: self.unmappable_stream_indices@.map_values(|i: usize| i as nat),
            merge_only: self.merge_only,
            upscale: self.upscale,
        }
    }
}

// ------------------------------------------------- the parts of a command --

/// A path with the explicit `file:` protocol, so that colons in it are not
/// taken for a protocol.
pub open spec fn file_arg(p: Seq<char>) -> Seq<char> {
    "file:"@ + p
}

/// The codec for a source subtitle stream in an MKV output: `mov_text` becomes
/// SRT, everything else is copied.
pub open spec fn mkv_subtitle_codec(source: Seq<char>) -> Seq<char> {
    if source == "mov_text"@ {
        "srt"@
    } else {
        "copy"@
    }
}

/// `n` pairs of arguments in a row.
pub open spec fn pairs(
    n: nat,
    first: spec_fn(int) -> Seq<char>,
    second: spec_fn(int) -> Seq<char>,
) -> Seq<Seq<char>> {
    Seq::new(
        2 * n,
        |k: int|
            if k % 2 == 0 {
                first(k / 2)
            } else {
                second(k / 2)
            },
    )
}

/// The flags that every invocation begins with.
pub open spec fn global_args() -> Seq<Seq<char>> {
    seq![
        "-hide_banner"@,
        "-loglevel"@,
        "warning"@,
        "-nostats"@,
        "-progress"@,
        "pipe:1"@,
        "-n"@,
        "-ignore_unknown"@,
    ]
}

/// Whether the video stream is copied through.
pub open spec fn copies_video(o: Settings) -> bool {
    o.merge_only && o.profile != EncodingProfile::Web
}

/// The container that is written: the Web profile always writes MP4.
pub open spec fn written_container(o: Settings) -> Container {
    if o.profile == EncodingProfile::Web {
        Container::Mp4
    } else {
        o.container
    }
}

/// What the backend needs before the input; nothing where it does not encode.
pub open spec fn preamble_args(o: Settings) -> Seq<Seq<char>> {
    if copies_video(o) || o.profile == EncodingProfile::Web {
        Seq::empty()
    } else {
        backend::preamble(o.backend)
    }
}

/// The inputs: the source, then the subtitle files.
pub open spec fn input_args(input: Seq<char>, o: Settings) -> Seq<Seq<char>> {
    seq!["-i"@, file_arg(input)] + pairs(
        o.subtitles.len(),
        |i: int| "-i"@,
        |i: int| file_arg(o.subtitles[i].path),
    )
}

/// The streams that are taken from the source: all of them for MKV; video,
/// audio and subtitles for MP4.
pub open spec fn source_map_args(c: Container) -> Seq<Seq<char>> {
    match c {
        Container::Mkv => seq!["-map"@, "0"@],
        Container::Mp4 => seq!["-map"@, "0:v"@, "-map"@, "0:a?"@, "-map"@, "0:s?"@],
    }
}

/// The streams that are dropped again.
pub open spec fn drop_map_args(o: Settings) -> Seq<Seq<char>> {
    pairs(
        o.unmappable.len(),
        |i: int| "-map"@,
        |i: int| "-0:"@ + text::decimal(o.unmappable[i]),
    )
}

/// The subtitle files, which are the inputs from 1 on.
pub open spec fn sidecar_map_args(o: Settings) -> Seq<Seq<char>> {
    pairs(o.subtitles.len(), |i: int| "-map"@, |i: int| text::decimal((i + 1) as nat))
}

/// The video filter: the upscale first, then what the backend needs.
pub open spec fn filter_chain(u: Upscale, b: Backend) -> Option<Seq<char>> {
    match (upscale::upscale_filter(u, b), backend::video_filter(b)) {
        (None, None) => None,
        (Some(s), None) => Some(s),
        (None, Some(t)) => Some(t),
        (Some(s), Some(t)) => Some(s + ","@ + t),
    }
}

/// The preset that is used: the given one, else the backend's default, and none
/// where the backend has no presets.
pub open spec fn used_preset(o: Settings) -> Option<Seq<char>> {
    match (backend::default_preset(o.backend, o.codec), o.preset) {
        (None, _) => None,
        (Some(_), Some(p)) => Some(p),
        (Some(d), None) => Some(d),
    }
}

/// How the video is encoded on the chosen backend.
pub open spec fn encoder_args(o: Settings) -> Seq<Seq<char>> {
    (match filter_chain(o.upscale, o.backend) {
        Some(f) => seq!["-vf"@, f],
        None => Seq::empty(),
    }) + seq!["-c:v"@, backend::encoder_name(o.backend, o.codec)] + seq![
        backend::quality_flag(o.backend),
        text::decimal(o.quality),
    ] + (match used_preset(o) {
        Some(p) => seq!["-preset"@, p],
        None => Seq::empty(),
    }) + backend::extra_post(o.backend)
}

/// What becomes of the video and the audio.
pub open spec fn stream_args(o: Settings) -> Seq<Seq<char>> {
    if copies_video(o) {
        seq!["-c:v"@, "copy"@] + seq!["-c:a"@, "copy"@]
    } else if o.profile == EncodingProfile::Web {
        profile::web_args()
    } else {
        encoder_args(o) + seq!["-c:a"@, "copy"@]
    }
}

/// What becomes of the subtitles, and for MKV of data and attachments.
pub open spec fn subtitle_args(o: Settings) -> Seq<Seq<char>> {
    let n = o.source_subtitle_codecs.len();
    match written_container(o) {
        Container::Mkv => (if n == 0 {
            seq!["-c:s"@, "copy"@]
        } else {
            pairs(
                n,
                |i: int| "-c:s:"@ + text::decimal(i as nat),
                |i: int| mkv_subtitle_codec(o.source_subtitle_codecs[i]),
            ) + pairs(
                o.subtitles.len(),
                |i: int| "-c:s:"@ + text::decimal((n + i) as nat),
                |i: int| "copy"@,
            )
        }) + seq!["-c:d"@, "copy"@, "-c:t"@, "copy"@],
        Container::Mp4 => seq!["-c:s"@, "mov_text"@],
    }
}

/// The language of the first `k` subtitle files, as metadata of the streams
/// that they become.
pub open spec fn language_args(o: Settings, k: nat) -> Seq<Seq<char>>
    decreases k,
{
    if k == 0 {
        Seq::empty()
    } else {
        language_args(o, (k - 1) as nat) + (match o.subtitles[k - 1].language {
            Some(lang) => seq![
                "-metadata:s:s:"@ + text::decimal((o.source_subtitle_codecs.len() + k - 1) as nat),
                "language="@ + lang,
            ],
            None => Seq::empty(),
        })
    }
}

/// The arguments of an encode into a single file.
pub open spec fn file_args(input: Seq<char>, output: Seq<char>, o: Settings) -> Seq<Seq<char>> {
    global_args() + preamble_args(o) + input_args(input, o) + source_map_args(written_container(o))
        + drop_map_args(o) + sidecar_map_args(o) + stream_args(o) + subtitle_args(o)
        + language_args(o, o.subtitles.len()) + seq![file_arg(output)]
}

// ----------------------------------------------------------- HLS bundles --

/// The label of a rendition's branch before scaling.
pub open spec fn branch_in(r: profile::Rendition) -> Seq<char> {
    "[v"@ + r.name + "in]"@
}

/// The label of a rendition's scaled video.
pub open spec fn branch_out(r: profile::Rendition) -> Seq<char> {
    "[v"@ + r.name + "]"@
}

/// The branch that scales the video to a rendition's height.
pub open spec fn branch(r: profile::Rendition) -> Seq<char> {
    branch_in(r) + "scale=-2:"@ + text::decimal(r.height) + ":flags=lanczos,setsar=1"@ + branch_out(r)
}

/// The filter graph: the video split into one branch for each rendition.
pub open spec fn hls_filter(l: Seq<profile::Rendition>) -> Seq<char> {
    "[0:v]split="@ + text::decimal(l.len()) + text::joined(
        l.map_values(|r: profile::Rendition| branch_in(r)),
        Seq::empty(),
    ) + ";"@ + text::joined(l.map_values(|r: profile::Rendition| branch(r)), ";"@)
}

/// An option of output stream `i` of a kind.
pub open spec fn stream_flag(flag: Seq<char>, kind: Seq<char>, i: nat) -> Seq<char> {
    flag + kind + text::decimal(i)
}

/// The expression that puts a keyframe on each segment boundary.
pub open spec fn keyframes() -> Seq<char> {
    "expr:gte(t,n_forced*"@ + text::decimal(HLS_SEGMENT_SECONDS as nat) + ")"@
}

/// The streams and settings of rendition `i`.
pub open spec fn rendition_args(i: nat, r: profile::Rendition) -> Seq<Seq<char>> {
    seq![
        "-map"@,
        branch_out(r),
        "-map"@,
        "0:a:0?"@,
        stream_flag("-c"@, ":v:"@, i),
        "libx264"@,
        stream_flag("-b"@, ":v:"@, i),
        r.video_bitrate,
        stream_flag("-maxrate"@, ":v:"@, i),
        r.video_maxrate,
        stream_flag("-bufsize"@, ":v:"@, i),
        r.video_bufsize,
        stream_flag("-profile"@, ":v:"@, i),
        r.video_profile,
        stream_flag("-level"@, ":v:"@, i),
        r.video_level,
        stream_flag("-force_key_frames"@, ":v:"@, i),
        keyframes(),
        stream_flag("-c"@, ":a:"@, i),
        "aac"@,
        stream_flag("-ac"@, ":a:"@, i),
        "2"@,
        stream_flag("-b"@, ":a:"@, i),
        r.audio_bitrate,
    ]
}

/// The streams and settings of the first `k` renditions.
pub open spec fn renditions_args(l: Seq<profile::Rendition>, k: nat) -> Seq<Seq<char>>
    decreases k,
{
    if k == 0 {
        Seq::empty()
    } else {
        renditions_args(l, (k - 1) as nat) + rendition_args((k - 1) as nat, l[k - 1])
    }
}

/// What ties the streams of rendition `i` to its folder.
pub open spec fn variant_entry(i: nat, r: profile::Rendition) -> Seq<char> {
    "v:"@ + text::decimal(i) + ",a:"@ + text::decimal(i) + ",name:"@ + r.name
}

/// The `var_stream_map`: the entries of all renditions.
pub open spec fn variant_map(l: Seq<profile::Rendition>) -> Seq<char> {
    text::joined(Seq::new(l.len(), |i: int| variant_entry(i as nat, l[i])), " "@)
}

/// A file of each rendition's folder in the bundle at `output`.
pub open spec fn variant_file(output: Seq<char>, name: Seq<char>) -> Seq<char> {
    path::joined_path(path::joined_path(output, "%v"@), name)
}

/// The settings that all renditions share.
pub open spec fn shared_hls_args() -> Seq<Seq<char>> {
    seq!["-preset"@, "slow"@, "-pix_fmt"@, "yuv420p"@, "-sc_threshold"@, "0"@]
}

/// How the streams are cut into segments and playlists.
pub open spec fn muxer_args(output: Seq<char>, l: Seq<profile::Rendition>) -> Seq<Seq<char>> {
    seq![
        "-f"@,
        "hls"@,
        "-hls_time"@,
        text::decimal(HLS_SEGMENT_SECONDS as nat),
        "-hls_playlist_type"@,
        "vod"@,
        "-hls_flags"@,
        "independent_segments"@,
        "-hls_segment_type"@,
        "mpegts"@,
        "-hls_list_size"@,
        "0"@,
        "-hls_segment_filename"@,
        variant_file(output, "segment_%03d.ts"@),
        "-master_pl_name"@,
        "master.m3u8"@,
        "-var_stream_map"@,
        variant_map(l),
        variant_file(output, "playlist.m3u8"@),
    ]
}

/// The arguments of an encode into an HLS bundle.
pub open spec fn hls_args(input: Seq<char>, output: Seq<char>) -> Seq<Seq<char>> {
    let l = profile::ladder();
    global_args() + seq!["-i"@, file_arg(input)] + seq!["-filter_complex"@, hls_filter(l)]
        + renditions_args(l, l.len()) + shared_hls_args() + muxer_args(output, l)
}

/// The arguments of an encode.
pub open spec fn ffmpeg_args(input: Seq<char>, output: Seq<char>, o: Settings) -> Seq<Seq<char>> {
    if o.profile == EncodingProfile::Hls {
        hls_args(input, output)
    } else {
        file_args(input, output, o)
    }
}

// ------------------------------------------------------------- computation --

/// A path with the explicit `file:` protocol.
pub fn file_protocol_arg(p: &str) -> (r: String)
    ensures
        r@ == file_arg(p@),
{
    text::cat("file:", p)
}

/// Pick the output subtitle codec to use for a given source subtitle codec
/// when targeting MKV. The matroska muxer accepts most subtitle codecs as a
/// stream copy, but rejects `mov_text` (MP4 3GPP timed text).
pub fn subtitle_codec_for_mkv(source_codec: &str) -> (r: &'static str)
    ensures
        r@ == mkv_subtitle_codec(source_codec@),
{
    if text::same(source_codec, "mov_text") {
        "srt"
    } else {
        "copy"
    }
}

/// One pair more.
proof fn lemma_pairs_step(
    n: nat,
    first: spec_fn(int) -> Seq<char>,
    second: spec_fn(int) -> Seq<char>,
)
    ensures
        pairs(n + 1, first, second) == pairs(n, first, second) + seq![
            first(n as int),
            second(n as int),
        ],
{
    let a = pairs(n + 1, first, second);
    let b = pairs(n, first, second) + seq![first(n as int), second(n as int)];
    assert forall|k: int| 0 <= k < a.len() implies a[k] == b[k] by {
        if k >= 2 * n {
            assert(k / 2 == n);
        }
    }
    assert(a =~= b);
}

fn add_globals(args: &mut Vec<String>)
    ensures
        text::texts(final(args)@) == text::texts(old(args)@) + global_args(),
{
    let fixed: [&'static str; 8] = [
        "-hide_banner",
        "-loglevel",
        "warning",
        "-nostats",
        "-progress",
        "pipe:1",
        "-n",
        "-ignore_unknown",
    ];
    assert(text::str_texts(fixed@) =~= global_args());
    text::push_fixed(args, &fixed);
}

fn add_inputs(args: &mut Vec<String>, input: &str, opts: &EncodeOptions)
    ensures
        text::texts(final(args)@) == text::texts(old(args)@) + input_args(input@, opts@),
{
    let ghost first = |i: int| "-i"@;
    let ghost second = |i: int| file_arg(opts@.subtitles[i].path);
    let source = file_protocol_arg(input);
    text::push_pair(args, "-i", source.as_str());
    let ghost start = text::texts(args@);
    let mut i: usize = 0;
    assert(start + pairs(0, first, second) =~= start);
    while i < opts.subtitles.len()
        invariant
            i <= opts.subtitles@.len(),
            first == (|i: int| "-i"@),
            second == (|i: int| file_arg(opts@.subtitles[i].path)),
            text::texts(args@) == start + pairs(i as nat, first, second),
        decreases opts.subtitles@.len() - i,
    {
        let sub = file_protocol_arg(opts.subtitles[i].path.as_str());
        text::push_pair(args, "-i", sub.as_str());
        proof {
            lemma_pairs_step(i as nat, first, second);
            assert(text::texts(args@) =~= start + pairs((i + 1) as nat, first, second));
        }
        i += 1;
    }
    assert(text::texts(args@) =~= text::texts(old(args)@) + input_args(input@, opts@));
}

fn add_maps(args: &mut Vec<String>, container: Container, opts: &EncodeOptions)
    ensures
        text::texts(final(args)@) == text::texts(old(args)@) + source_map_args(container)
            + drop_map_args(opts@) + sidecar_map_args(opts@),
{
    match container {
        Container::Mkv => {
            text::push_pair(args, "-map", "0");
        },
        Container::Mp4 => {
            text::push_pair(args, "-map", "0:v");
            text::push_pair(args, "-map", "0:a?");
            text::push_pair(args, "-map", "0:s?");
        },
    }
    assert(text::texts(args@) =~= text::texts(old(args)@) + source_map_args(container));
    let ghost start = text::texts(args@);
    let ghost first = |i: int| "-map"@;
    let ghost second = |i: int| "-0:"@ + text::decimal(opts@.unmappable[i]);
    let mut i: usize = 0;
    assert(start + pairs(0, first, second) =~= start);
    while i < opts.unmappable_stream_indices.len()
        invariant
            i <= opts.unmappable_stream_indices@.len(),
            first == (|i: int| "-map"@),
            second == (|i: int| "-0:"@ + text::decimal(opts@.unmappable[i])),
            text::texts(args@) == start + pairs(i as nat, first, second),
        decreases opts.unmappable_stream_indices@.len() - i,
    {
        let index = text::decimal_string(opts.unmappable_stream_indices[i] as u128);
        let dropped = text::cat("-0:", index.as_str());
        text::push_pair(args, "-map", dropped.as_str());
        proof {
            lemma_pairs_step(i as nat, first, second);
            assert(text::texts(args@) =~= start + pairs((i + 1) as nat, first, second));
        }
        i += 1;
    }
    let ghost middle = text::texts(args@);
    let ghost third = |i: int| text::decimal((i + 1) as nat);
    let mut j: usize = 0;
    assert(middle + pairs(0, first, third) =~= middle);
    while j < opts.subtitles.len()
        invariant
            j <= opts.subtitles@.len(),
            first == (|i: int| "-map"@),
            third == (|i: int| text::decimal((i + 1) as nat)),
            text::texts(args@) == middle + pairs(j as nat, first, third),
        decreases opts.subtitles@.len() - j,
    {
        let index = text::decimal_string(j as u128 + 1);
        text::push_pair(args, "-map", index.as_str());
        proof {
            lemma_pairs_step(j as nat, first, third);
            assert(text::texts(args@) =~= middle + pairs((j + 1) as nat, first, third));
        }
        j += 1;
    }
}

fn add_encoder(args: &mut Vec<String>, opts: &EncodeOptions)
    ensures
        text::texts(final(args)@) == text::texts(old(args)@) + encoder_args(opts@),
{
    let cfg = opts.backend.config(opts.codec);
    let ghost start = text::texts(args@);
    // The upscale comes first so that the resized frames land in whatever
    // pixel or hwframe layout the encoder expects.
    let filter: Option<String> = match (opts.upscale.filter(opts.backend), cfg.video_filter) {
        (None, None) => None,
        (Some(u), None) => Some(u),
        (None, Some(b)) => Some(b),
        (Some(u), Some(b)) => Some(text::cat3(u.as_str(), ",", b.as_str())),
    };
    let ghost filter_part: Seq<Seq<char>> = match filter_chain(opts@.upscale, opts@.backend) {
        Some(f) => seq!["-vf"@, f],
        None => Seq::empty(),
    };
    match filter {
        Some(f) => {
            text::push_pair(args, "-vf", f.as_str());
        },
        None => {},
    }
    assert(text::texts(args@) =~= start + filter_part);
    text::push_pair(args, "-c:v", cfg.encoder);
    let quality = text::decimal_string(opts.quality as u128);
    text::push_pair(args, cfg.quality_flag, quality.as_str());
    let ghost preset_part: Seq<Seq<char>> = match used_preset(opts@) {
        Some(p) => seq!["-preset"@, p],
        None => Seq::empty(),
    };
    let ghost before_preset = text::texts(args@);
    match cfg.default_preset {
        Some(default) => {
            match opts.preset {
                Some(p) => {
                    text::push_pair(args, "-preset", p);
                },
                None => {
                    text::push_pair(args, "-preset", default);
                },
            }
        },
        None => {},
    }
    assert(text::texts(args@) =~= before_preset + preset_part);
    text::push_list(args, &cfg.extra_post);
    assert(text::texts(args@) =~= start + encoder_args(opts@));
}

fn add_streams(args: &mut Vec<String>, opts: &EncodeOptions)
    ensures
        text::texts(final(args)@) == text::texts(old(args)@) + stream_args(opts@),
{
    let web = opts.profile == EncodingProfile::Web;
    if opts.merge_only && !web {
        text::push_pair(args, "-c:v", "copy");
        text::push_pair(args, "-c:a", "copy");
    } else if web {
        text::push_fixed(args, profile::web_encoder_args());
    } else {
        add_encoder(args, opts);
        text::push_pair(args, "-c:a", "copy");
    }
    assert(text::texts(args@) =~= text::texts(old(args)@) + stream_args(opts@));
}

fn add_subtitle_codecs(args: &mut Vec<String>, container: Container, opts: &EncodeOptions)
    requires
        container == written_container(opts@),
    ensures
        text::texts(final(args)@) == text::texts(old(args)@) + subtitle_args(opts@),
{
    let ghost start = text::texts(args@);
    let n: usize = opts.source_subtitle_codecs.len();
    match container {
        Container::Mkv => {
            if n == 0 {
                text::push_pair(args, "-c:s", "copy");
            } else {
                let ghost key = |i: int| "-c:s:"@ + text::decimal(i as nat);
                let ghost val = |i: int| mkv_subtitle_codec(opts@.source_subtitle_codecs[i]);
                let mut i: usize = 0;
                assert(start + pairs(0, key, val) =~= start);
                while i < n
                    invariant
                        i <= n == opts.source_subtitle_codecs@.len(),
                        key == (|i: int| "-c:s:"@ + text::decimal(i as nat)),
                        val == (|i: int| mkv_subtitle_codec(opts@.source_subtitle_codecs[i])),
                        text::texts(args@) == start + pairs(i as nat, key, val),
                    decreases n - i,
                {
                    let index = text::decimal_string(i as u128);
                    let flag = text::cat("-c:s:", index.as_str());
                    let target = subtitle_codec_for_mkv(opts.source_subtitle_codecs[i].as_str());
                    text::push_pair(args, flag.as_str(), target);
                    proof {
                        lemma_pairs_step(i as nat, key, val);
                        assert(text::texts(args@) =~= start + pairs((i + 1) as nat, key, val));
                    }
                    i += 1;
                }
                let ghost middle = text::texts(args@);
                let ghost key2 = |i: int| "-c:s:"@ + text::decimal((n as nat + i) as nat);
                let ghost val2 = |i: int| "copy"@;
                let mut j: usize = 0;
                assert(middle + pairs(0, key2, val2) =~= middle);
                while j < opts.subtitles.len()
                    invariant
                        j <= opts.subtitles@.len(),
                        key2 == (|i: int| "-c:s:"@ + text::decimal((n as nat + i) as nat)),
                        val2 == (|i: int| "copy"@),
                        text::texts(args@) == middle + pairs(j as nat, key2, val2),
                    decreases opts.subtitles@.len() - j,
                {
                    let index = text::decimal_string(n as u128 + j as u128);
                    let flag = text::cat("-c:s:", index.as_str());
                    text::push_pair(args, flag.as_str(), "copy");
                    proof {
                        lemma_pairs_step(j as nat, key2, val2);
                        assert(text::texts(args@) =~= middle + pairs((j + 1) as nat, key2, val2));
                    }
                    j += 1;
                }
                assert(opts@.source_subtitle_codecs.len() == n);
                let ghost spec_key2 = |i: int|
                    "-c:s:"@ + text::decimal((opts@.source_subtitle_codecs.len() + i) as nat);
                assert(pairs(opts@.subtitles.len(), key2, val2) =~= pairs(
                    opts@.subtitles.len(),
                    spec_key2,
                    val2,
                ));
            }
            text::push_pair(args, "-c:d", "copy");
            text::push_pair(args, "-c:t", "copy");
            assert(text::texts(args@) =~= start + subtitle_args(opts@));
        },
        Container::Mp4 => {
            text::push_pair(args, "-c:s", "mov_text");
        },
    }
}

fn add_languages(args: &mut Vec<String>, opts: &EncodeOptions)
    ensures
        text::texts(final(args)@) == text::texts(old(args)@) + language_args(
            opts@,
            opts@.subtitles.len(),
        ),
{
    let ghost start = text::texts(args@);
    let n: usize = opts.source_subtitle_codecs.len();
    let mut i: usize = 0;
    assert(start + language_args(opts@, 0) =~= start);
    while i < opts.subtitles.len()
        invariant
            i <= opts.subtitles@.len(),
            n == opts@.source_subtitle_codecs.len(),
            text::texts(args@) == start + language_args(opts@, i as nat),
        decreases opts.subtitles@.len() - i,
    {
        assert(opts@.subtitles[i as int] == opts.subtitles@[i as int]@);
        match &opts.subtitles[i].language {
            Some(lang) => {
                let index = text::decimal_string(n as u128 + i as u128);
                let flag = text::cat("-metadata:s:s:", index.as_str());
                let value = text::cat("language=", lang.as_str());
                text::push_pair(args, flag.as_str(), value.as_str());
            },
            None => {},
        }
        assert(text::texts(args@) =~= start + language_args(opts@, (i + 1) as nat));
        i += 1;
    }
}

/// The `ffmpeg` invocation for this encode.
pub fn build_ffmpeg_command(input: &str, output: &str, opts: &EncodeOptions) -> (r: CommandLine)
    ensures
        r.program@ == "ffmpeg"@,
        text::texts(r.args@) == ffmpeg_args(input@, output@, opts@),
{
    if opts.profile == EncodingProfile::Hls {
        return build_hls_command(input, output);
    }
    let mut args: Vec<String> = Vec::new();
    assert(text::texts(args@) =~= Seq::<Seq<char>>::empty());
    add_globals(&mut args);
    let web = opts.profile == EncodingProfile::Web;
    // Nothing is encoded on the backend in merge-only mode, nor by Web, which
    // runs on the CPU, so it is not brought up for them.
    if !opts.merge_only && !web {
        let cfg = opts.backend.config(opts.codec);
        text::push_list(&mut args, &cfg.preamble);
    }
    assert(text::texts(args@) =~= global_args() + preamble_args(opts@));
    add_inputs(&mut args, input, opts);
    let container = if web {
        Container::Mp4
    } else {
        opts.container
    };
    add_maps(&mut args, container, opts);
    add_streams(&mut args, opts);
    add_subtitle_codecs(&mut args, container, opts);
    add_languages(&mut args, opts);
    let target = file_protocol_arg(output);
    let ghost before = text::texts(args@);
    text::push_string(&mut args, target);
    assert(before.push(file_arg(output@)) =~= before + seq![file_arg(output@)]);
    CommandLine { program: "ffmpeg", args }
}

fn hls_filter_string() -> (r: String)
    ensures
        r@ == hls_filter(profile::ladder()),
{
    let variants = profile::hls_variants();
    let ghost l = profile::ladder();
    let mut heads: Vec<String> = Vec::new();
    let mut branches: Vec<String> = Vec::new();
    let ghost head_texts = l.map_values(|r: profile::Rendition| branch_in(r));
    let ghost branch_texts = l.map_values(|r: profile::Rendition| branch(r));
    let mut i: usize = 0;
    while i < variants.len()
        invariant
            i <= variants@.len() == l.len(),
            variants@.map_values(|v: profile::HlsVariant| v@) == l,
            head_texts == l.map_values(|r: profile::Rendition| branch_in(r)),
            branch_texts == l.map_values(|r: profile::Rendition| branch(r)),
            text::texts(heads@) == head_texts.take(i as int),
            text::texts(branches@) == branch_texts.take(i as int),
        decreases variants@.len() - i,
    {
        let v = &variants[i];
        assert(l[i as int] == variants@.map_values(|v: profile::HlsVariant| v@)[i as int]);
        let head = text::cat3("[v", v.name, "in]");
        let out = text::cat3("[v", v.name, "]");
        let height = text::decimal_string(v.height as u128);
        let mut line = text::cat3(head.as_str(), "scale=-2:", height.as_str());
        line.append(":flags=lanczos,setsar=1");
        line.append(out.as_str());
        text::push_string(&mut heads, head);
        text::push_string(&mut branches, line);
        assert(head_texts.take(i + 1) =~= head_texts.take(i as int).push(branch_in(l[i as int])));
        assert(branch_texts.take(i + 1) =~= branch_texts.take(i as int).push(branch(l[i as int])));
        i += 1;
    }
    assert(head_texts.take(i as int) =~= head_texts);
    assert(branch_texts.take(i as int) =~= branch_texts);
    let count = text::decimal_string(variants.len() as u128);
    let all_heads = text::join(&heads, "");
    let all_branches = text::join(&branches, ";");
    proof {
        reveal_strlit("");
        assert(""@ =~= Seq::<char>::empty());
    }
    let mut filter = text::cat3("[0:v]split=", count.as_str(), all_heads.as_str());
    filter.append(";");
    filter.append(all_branches.as_str());
    filter
}

fn variant_map_string() -> (r: String)
    ensures
        r@ == variant_map(profile::ladder()),
{
    let variants = profile::hls_variants();
    let ghost l = profile::ladder();
    let ghost entries = Seq::new(l.len(), |i: int| variant_entry(i as nat, l[i]));
    let mut list: Vec<String> = Vec::new();
    let mut i: usize = 0;
    while i < variants.len()
        invariant
            i <= variants@.len() == l.len(),
            variants@.map_values(|v: profile::HlsVariant| v@) == l,
            entries == Seq::new(l.len(), |i: int| variant_entry(i as nat, l[i])),
            text::texts(list@) == entries.take(i as int),
        decreases variants@.len() - i,
    {
        let v = &variants[i];
        assert(l[i as int] == variants@.map_values(|v: profile::HlsVariant| v@)[i as int]);
        let index = text::decimal_string(i as u128);
        let mut entry = text::cat3("v:", index.as_str(), ",a:");
        entry.append(index.as_str());
        entry.append(",name:");
        entry.append(v.name);
        text::push_string(&mut list, entry);
        assert(entries.take(i + 1) =~= entries.take(i as int).push(
            variant_entry(i as nat, l[i as int]),
        ));
        i += 1;
    }
    assert(entries.take(i as int) =~= entries);
    text::join(&list, " ")
}

/// An option of one output stream.
fn stream_option(flag: &str, kind: &str, index: &str) -> (r: String)
    ensures
        r@ == flag@ + kind@ + index@,
{
    text::cat3(flag, kind, index)
}

fn add_rendition(args: &mut Vec<String>, i: usize, v: &profile::HlsVariant)
    ensures
        text::texts(final(args)@) == text::texts(old(args)@) + rendition_args(i as nat, v@),
{
    let ghost start = text::texts(args@);
    let index = text::decimal_string(i as u128);
    let n: &str = index.as_str();
    let out = text::cat3("[v", v.name, "]");
    let seconds = text::decimal_string(HLS_SEGMENT_SECONDS as u128);
    let gop = text::cat3("expr:gte(t,n_forced*", seconds.as_str(), ")");
    text::push_pair(args, "-map", out.as_str());
    text::push_pair(args, "-map", "0:a:0?");
    text::push_pair(args, stream_option("-c", ":v:", n).as_str(), "libx264");
    text::push_pair(args, stream_option("-b", ":v:", n).as_str(), v.video_bitrate);
    text::push_pair(args, stream_option("-maxrate", ":v:", n).as_str(), v.video_maxrate);
    text::push_pair(args, stream_option("-bufsize", ":v:", n).as_str(), v.video_bufsize);
    text::push_pair(args, stream_option("-profile", ":v:", n).as_str(), v.video_profile);
    text::push_pair(args, stream_option("-level", ":v:", n).as_str(), v.video_level);
    text::push_pair(args, stream_option("-force_key_frames", ":v:", n).as_str(), gop.as_str());
    text::push_pair(args, stream_option("-c", ":a:", n).as_str(), "aac");
    text::push_pair(args, stream_option("-ac", ":a:", n).as_str(), "2");
    text::push_pair(args, stream_option("-b", ":a:", n).as_str(), v.audio_bitrate);
    assert(text::texts(args@) =~= start + rendition_args(i as nat, v@));
}

/// The `ffmpeg` invocation for an HLS bundle: one ladder of video renditions
/// plus matching AAC stereo audio, packaged into a `master.m3u8` +
/// per-variant `playlist.m3u8` + TS segments tree under `output`.
pub fn build_hls_command(input: &str, output: &str) -> (r: CommandLine)
    ensures
        r.program@ == "ffmpeg"@,
        text::texts(r.args@) == hls_args(input@, output@),
{
    let variants = profile::hls_variants();
    let ghost l = profile::ladder();
    let mut args: Vec<String> = Vec::new();
    assert(text::texts(args@) =~= Seq::<Seq<char>>::empty());
    add_globals(&mut args);
    assert(text::texts(args@) =~= global_args());
    let source = file_protocol_arg(input);
    text::push_pair(&mut args, "-i", source.as_str());
    let filter = hls_filter_string();
    text::push_pair(&mut args, "-filter_complex", filter.as_str());
    let ghost start = text::texts(args@);
    let mut i: usize = 0;
    assert(start + renditions_args(l, 0) =~= start);
    while i < variants.len()
        invariant
            i <= variants@.len() == l.len(),
            variants@.map_values(|v: profile::HlsVariant| v@) == l,
            text::texts(args@) == start + renditions_args(l, i as nat),
        decreases variants@.len() - i,
    {
        assert(l[i as int] == variants@.map_values(|v: profile::HlsVariant| v@)[i as int]);
        add_rendition(&mut args, i, &variants[i]);
        assert(text::texts(args@) =~= start + renditions_args(l, (i + 1) as nat));
        i += 1;
    }
    let ghost middle = text::texts(args@);
    text::push_pair(&mut args, "-preset", "slow");
    text::push_pair(&mut args, "-pix_fmt", "yuv420p");
    text::push_pair(&mut args, "-sc_threshold", "0");
    assert(text::texts(args@) =~= middle + shared_hls_args());
    let ghost last = text::texts(args@);
    let folder = path::join_path(output, "%v");
    let segments = path::join_path(folder.as_str(), "segment_%03d.ts");
    let playlist = path::join_path(folder.as_str(), "playlist.m3u8");
    let seconds = text::decimal_string(HLS_SEGMENT_SECONDS as u128);
    let map = variant_map_string();
    text::push_pair(&mut args, "-f", "hls");
    text::push_pair(&mut args, "-hls_time", seconds.as_str());
    text::push_pair(&mut args, "-hls_playlist_type", "vod");
    text::push_pair(&mut args, "-hls_flags", "independent_segments");
    text::push_pair(&mut args, "-hls_segment_type", "mpegts");
    text::push_pair(&mut args, "-hls_list_size", "0");
    text::push_pair(&mut args, "-hls_segment_filename", segments.as_str());
    text::push_pair(&mut args, "-master_pl_name", "master.m3u8");
    text::push_pair(&mut args, "-var_stream_map", map.as_str());
    text::push_string(&mut args, playlist);
    assert(text::texts(args@) =~= last + muxer_args(output@, l));
    CommandLine { program: "ffmpeg", args }
}

/// The directories that ffmpeg expects to find, in the order in which they are
/// to be made: the parent of a single output file, or the root of an HLS bundle
/// and a folder for each rendition in it.
pub open spec fn needed_dirs(output: Seq<char>, p: EncodingProfile) -> Seq<Seq<char>> {
    match p {
        EncodingProfile::Standard | EncodingProfile::Web => match path::parent(output) {
            Some(d) => seq![d],
            None => Seq::empty(),
        },
        EncodingProfile::Hls => seq![output] + profile::ladder().map_values(
            |r: profile::Rendition| path::joined_path(output, r.name),
        ),
    }
}

/// The directories to be made before ffmpeg runs; its HLS muxer does not make
/// them itself.
pub fn prepare_output_dirs(output: &str, profile: EncodingProfile) -> (r: Vec<String>)
    ensures
        text::texts(r@) == needed_dirs(output@, profile),
{
    let mut dirs: Vec<String> = Vec::new();
    match profile {
        EncodingProfile::Standard | EncodingProfile::Web => {
            match path::parent_of(output) {
                Some(d) => {
                    text::push_string(&mut dirs, d);
                },
                None => {},
            }
            assert(text::texts(dirs@) =~= needed_dirs(output@, profile));
        },
        EncodingProfile::Hls => {
            text::push_text(&mut dirs, output);
            assert(text::texts(dirs@) =~= seq![output@]);
            let variants = profile::hls_variants();
            let ghost l = profile::ladder();
            let ghost folders = l.map_values(
                |r: profile::Rendition| path::joined_path(output@, r.name),
            );
            let mut i: usize = 0;
            assert(seq![output@] + folders.take(0) =~= seq![output@]);
            while i < variants.len()
                invariant
                    i <= variants@.len() == l.len(),
                    variants@.map_values(|v: profile::HlsVariant| v@) == l,
                    folders == l.map_values(
                        |r: profile::Rendition| path::joined_path(output@, r.name),
                    ),
                    text::texts(dirs@) == seq![output@] + folders.take(i as int),
                decreases variants@.len() - i,
            {
                assert(l[i as int] == variants@.map_values(|v: profile::HlsVariant| v@)[i as int]);
                text::push_string(&mut dirs, path::join_path(output, variants[i].name));
                assert(folders.take(i + 1) =~= folders.take(i as int).push(folders[i as int]));
                assert(text::texts(dirs@) =~= seq![output@] + folders.take(i + 1));
                i += 1;
            }
            assert(folders.take(i as int) =~= folders);
        },
    }
    dirs
}

// -------------------------------------------------------------------- laws --

/// Every invocation begins with the same flags, `-ignore_unknown` among them,
/// and so before the first input.
pub proof fn law_globals_come_first(input: Seq<char>, output: Seq<char>, o: Settings)
    ensures
        ffmpeg_args(input, output, o).len() >= 8,
        ffmpeg_args(input, output, o).take(8) == global_args(),
        ffmpeg_args(input, output, o)[7] == "-ignore_unknown"@,
        forall|k: int| 0 <= k < 8 ==> #[trigger] ffmpeg_args(input, output, o)[k] != "-i"@,
{
    let args = ffmpeg_args(input, output, o);
    assert(args.take(8) =~= global_args());
    reveal_strlit("-i");
    reveal_strlit("-hide_banner");
    reveal_strlit("-loglevel");
    reveal_strlit("warning");
    reveal_strlit("-nostats");
    reveal_strlit("-progress");
    reveal_strlit("pipe:1");
    reveal_strlit("-n");
    reveal_strlit("-ignore_unknown");
    assert("-n"@[1] != "-i"@[1]);
    assert forall|k: int| 0 <= k < 8 implies #[trigger] args[k] != "-i"@ by {
        assert(args[k] == args.take(8)[k]);
        assert(global_args()[k].len() == 2 ==> k == 6);
    }
}

/// What the backend needs comes right behind the common flags and so before
/// the first input, and the source is the first input.
pub proof fn law_preamble_precedes_input(input: Seq<char>, output: Seq<char>, o: Settings)
    requires
        o.profile != EncodingProfile::Hls,
    ensures
        ({
            let args = ffmpeg_args(input, output, o);
            let n = 8 + preamble_args(o).len() as int;
            &&& args.len() > n + 1
            &&& args.take(n) == global_args() + preamble_args(o)
            &&& args[n] == "-i"@
            &&& args[n + 1] == file_arg(input)
        }),
{
    let args = ffmpeg_args(input, output, o);
    let n = 8 + preamble_args(o).len() as int;
    assert(args.take(n) =~= global_args() + preamble_args(o));
}

/// A single output file is the last argument; of a bundle it is the template of
/// the playlists, under the bundle's own directory.
pub proof fn law_output_is_last(input: Seq<char>, output: Seq<char>, o: Settings)
    ensures
        ffmpeg_args(input, output, o).len() > 0,
        ffmpeg_args(input, output, o).last() == if o.profile == EncodingProfile::Hls {
            path::joined_path(path::joined_path(output, "%v"@), "playlist.m3u8"@)
        } else {
            file_arg(output)
        },
{
}

/// The Web profile ignores codec, backend, container, quality, preset, upscale
/// and merge mode: nothing is brought up for a backend, and the video and audio
/// settings are the fixed ones.
pub proof fn law_web_is_fixed(input: Seq<char>, output: Seq<char>, o: Settings, p: Settings)
    requires
        o.profile == EncodingProfile::Web,
        p.profile == EncodingProfile::Web,
        o.subtitles == p.subtitles,
        o.source_subtitle_codecs == p.source_subtitle_codecs,
        o.unmappable == p.unmappable,
    ensures
        ffmpeg_args(input, output, o) == ffmpeg_args(input, output, p),
        preamble_args(o).len() == 0,
        stream_args(o) == profile::web_args(),
{
    lemma_languages_agree(o, p, o.subtitles.len());
    assert(drop_map_args(o) =~= drop_map_args(p));
    assert(sidecar_map_args(o) =~= sidecar_map_args(p));
    assert(input_args(input, o) =~= input_args(input, p));
}

/// The HLS profile ignores every other option: the ladder is fixed, and
/// subtitles are not muxed in.
pub proof fn law_hls_is_fixed(input: Seq<char>, output: Seq<char>, o: Settings, p: Settings)
    requires
        o.profile == EncodingProfile::Hls,
        p.profile == EncodingProfile::Hls,
    ensures
        ffmpeg_args(input, output, o) == ffmpeg_args(input, output, p),
{
}

/// Merge mode ignores codec, backend, quality, preset and upscale: nothing is
/// brought up for a backend, and video and audio are copied.
pub proof fn law_merge_is_fixed(input: Seq<char>, output: Seq<char>, o: Settings, p: Settings)
    requires
        o.profile == EncodingProfile::Standard,
        p.profile == EncodingProfile::Standard,
        o.merge_only,
        p.merge_only,
        o.container == p.container,
        o.subtitles == p.subtitles,
        o.source_subtitle_codecs == p.source_subtitle_codecs,
        o.unmappable == p.unmappable,
    ensures
        ffmpeg_args(input, output, o) == ffmpeg_args(input, output, p),
        preamble_args(o).len() == 0,
        stream_args(o) == seq!["-c:v"@, "copy"@, "-c:a"@, "copy"@],
{
    lemma_languages_agree(o, p, o.subtitles.len());
    assert(drop_map_args(o) =~= drop_map_args(p));
    assert(sidecar_map_args(o) =~= sidecar_map_args(p));
    assert(input_args(input, o) =~= input_args(input, p));
    assert(subtitle_args(o) =~= subtitle_args(p));
    assert(stream_args(o) =~= seq!["-c:v"@, "copy"@, "-c:a"@, "copy"@]);
}

/// A backend without presets ignores the one that is given.
pub proof fn law_preset_needs_a_backend_with_presets(
    input: Seq<char>,
    output: Seq<char>,
    o: Settings,
    preset: Option<Seq<char>>,
)
    requires
        backend::default_preset(o.backend, o.codec) is None,
    ensures
        ffmpeg_args(input, output, o) == ffmpeg_args(input, output, Settings { preset, ..o }),
{
    let p = Settings { preset, ..o };
    lemma_languages_agree(o, p, o.subtitles.len());
    assert(drop_map_args(o) =~= drop_map_args(p));
    assert(sidecar_map_args(o) =~= sidecar_map_args(p));
    assert(input_args(input, o) =~= input_args(input, p));
    assert(subtitle_args(o) =~= subtitle_args(p));
    assert(stream_args(o) =~= stream_args(p));
}

/// The languages depend on the subtitle files and the number of source streams.
proof fn lemma_languages_agree(o: Settings, p: Settings, k: nat)
    requires
        o.subtitles == p.subtitles,
        o.source_subtitle_codecs == p.source_subtitle_codecs,
        k <= o.subtitles.len(),
    ensures
        language_args(o, k) == language_args(p, k),
    decreases k,
{
    if k > 0 {
        lemma_languages_agree(o, p, (k - 1) as nat);
    }
}

/// The streams to be dropped are named right behind the streams that are taken,
/// in the order in which they are given.
pub proof fn law_drops_follow_maps(input: Seq<char>, output: Seq<char>, o: Settings, i: int)
    requires
        o.profile != EncodingProfile::Hls,
        0 <= i < o.unmappable.len(),
    ensures
        ({
            let args = ffmpeg_args(input, output, o);
            let taken = source_map_args(written_container(o));
            let at = 10 + preamble_args(o).len() + 2 * o.subtitles.len();
            let drop = at + taken.len() + 2 * i;
            &&& args.subrange(at as int, (at + taken.len()) as int) == taken
            &&& args[drop] == "-map"@
            &&& args[drop + 1] == "-0:"@ + text::decimal(o.unmappable[i])
        }),
{
    let args = ffmpeg_args(input, output, o);
    let taken = source_map_args(written_container(o));
    let at = 10 + preamble_args(o).len() + 2 * o.subtitles.len();
    let drop = at + taken.len() + 2 * i;
    let head = global_args() + preamble_args(o) + input_args(input, o);
    assert(head.len() == at);
    assert(args.subrange(at as int, (at + taken.len()) as int) =~= taken);
    assert((2 * i) / 2 == i && (2 * i + 1) / 2 == i && (2 * i + 1) % 2 == 1);
    assert(args[drop] == drop_map_args(o)[2 * i]);
    assert(args[drop + 1] == drop_map_args(o)[2 * i + 1]);
}

/// With MKV and known source subtitles, every subtitle stream of the output has
/// its own codec setting, in order: a source stream that is `mov_text` becomes
/// SRT, and everything else, the added files included, is copied.
pub proof fn law_mkv_subtitle_codecs(o: Settings, k: int)
    requires
        written_container(o) == Container::Mkv,
        o.source_subtitle_codecs.len() > 0,
        0 <= k < o.source_subtitle_codecs.len() + o.subtitles.len(),
    ensures
        subtitle_args(o)[2 * k] == "-c:s:"@ + text::decimal(k as nat),
        subtitle_args(o)[2 * k + 1] == if k < o.source_subtitle_codecs.len()
            && o.source_subtitle_codecs[k] == "mov_text"@ {
            "srt"@
        } else {
            "copy"@
        },
{
    let n = o.source_subtitle_codecs.len();
    assert((2 * k) / 2 == k && (2 * k + 1) / 2 == k && (2 * k + 1) % 2 == 1);
    if k >= n {
        let j = k - n;
        assert((2 * j) / 2 == j && (2 * j + 1) / 2 == j && (2 * j + 1) % 2 == 1);
        assert(2 * k - 2 * n == 2 * j);
    }
}

/// The Web profile sets its own audio codec and never asks for a copy: there
/// is one audio setting, and it is AAC.
pub proof fn law_web_encodes_audio(o: Settings)
    requires
        o.profile == EncodingProfile::Web,
    ensures
        forall|k: int|
            0 <= k < stream_args(o).len() - 1 && #[trigger] stream_args(o)[k] == "-c:a"@
                ==> stream_args(o)[k + 1] == "aac"@,
{
    reveal_strlit("-c:a");
    reveal_strlit("-c:v");
    reveal_strlit("libx264");
    reveal_strlit("-preset");
    reveal_strlit("slow");
    reveal_strlit("-crf");
    reveal_strlit("20");
    reveal_strlit("-profile:v");
    reveal_strlit("high");
    reveal_strlit("-level");
    reveal_strlit("4.0");
    reveal_strlit("-pix_fmt");
    reveal_strlit("yuv420p");
    reveal_strlit("aac");
    reveal_strlit("-ac");
    reveal_strlit("2");
    reveal_strlit("-b:a");
    reveal_strlit("192k");
    reveal_strlit("-movflags");
    reveal_strlit("+faststart");
    let args = stream_args(o);
    assert forall|k: int|
        0 <= k < args.len() - 1 && #[trigger] args[k] == "-c:a"@ implies args[k + 1] == "aac"@ by {
        assert(args[k].len() == 4 && args[k][0] == '-' && args[k][1] == 'c' && args[k][3] == 'a');
        assert(k == 12);
    }
}

/// No two subtitle streams of the output share a codec setting or a language.
pub proof fn law_stream_settings_are_distinct(i: nat, j: nat)
    requires
        i != j,
    ensures
        "-c:s:"@ + text::decimal(i) != "-c:s:"@ + text::decimal(j),
        "-metadata:s:s:"@ + text::decimal(i) != "-metadata:s:s:"@ + text::decimal(j),
{
    let a = text::decimal(i);
    let b = text::decimal(j);
    let c = "-c:s:"@;
    let m = "-metadata:s:s:"@;
    assert((c + a).skip(c.len() as int) =~= a);
    assert((c + b).skip(c.len() as int) =~= b);
    assert((m + a).skip(m.len() as int) =~= a);
    assert((m + b).skip(m.len() as int) =~= b);
    if a == b {
        text::law_decimal_is_injective(i, j);
    }
}

/// Before a bundle is written, the folder of each rendition is made in it,
/// under the name by which the playlists and segments go there.
pub proof fn law_variant_folders_are_made(output: Seq<char>, i: int)
    requires
        0 <= i < profile::ladder().len(),
    ensures
        needed_dirs(output, EncodingProfile::Hls)[0] == output,
        needed_dirs(output, EncodingProfile::Hls)[i + 1] == path::joined_path(
            output,
            profile::ladder()[i].name,
        ),
        needed_dirs(output, EncodingProfile::Hls).len() == profile::ladder().len() + 1,
{
}

/// Before a single file is written, the directory that it goes to is made.
pub proof fn law_output_folder_is_made(output: Seq<char>, p: EncodingProfile)
    requires
        p != EncodingProfile::Hls,
    ensures
        path::parent(output) matches Some(d) ==> needed_dirs(output, p) == seq![d],
        path::parent(output) is None ==> needed_dirs(output, p).len() == 0,
{
}

} // verus!
