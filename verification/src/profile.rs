//! Transcoding profiles and the fixed settings of two of them.

use vstd::prelude::*;
use crate::text;

verus! {

/// Top-level transcoding profile. `Standard` uses the configurable
/// codec/backend/container/quality/preset/upscale knobs; `Web` is a fixed
/// browser-friendly configuration (libx264 high@4.0, AAC stereo 192k, MP4 with
/// `+faststart`) that writes a sibling `<stem>.web.mp4` next to the source;
/// `Hls` produces an adaptive HTTP Live Streaming bundle (`<stem>.hls/` with
/// `master.m3u8` plus `360p`, `720p` and `1080p` variant playlists + TS
/// segments). In `Web` and `Hls` modes the codec/backend/container/quality/
/// preset/upscale fields of the options are ignored.
#[derive(Copy, Clone, Debug, PartialEq, Eq, Structural)]
pub enum EncodingProfile {
    Standard,
    Web,
    Hls,
}

impl Default for EncodingProfile {
    fn default() -> (r: Self)
        ensures
            r == EncodingProfile::Standard,
    {
        EncodingProfile::Standard
    }
}

/// The name shown to the user.
pub open spec fn profile_label(p: EncodingProfile) -> Seq<char> {
    match p {
        EncodingProfile::Standard => "standard"@,
        EncodingProfile::Web => "web"@,
        EncodingProfile::Hls => "hls"@,
    }
}

impl EncodingProfile {
    /// The name shown to the user.
    pub fn label(self) -> (r: &'static str)
        ensures
            r@ == profile_label(self),
    {
        match self {
            EncodingProfile::Standard => "standard",
            EncodingProfile::Web => "web",
            EncodingProfile::Hls => "hls",
        }
    }
}

/// One rendition in the HLS ladder. The fixed list is exposed via
/// [`hls_variants`].
#[derive(Debug)]
pub struct HlsVariant {
    /// Folder name in the output bundle (also used as the variant id
    /// in ffmpeg's `var_stream_map`).
    pub name: &'static str,
    /// Target output height in pixels; ffmpeg scales width to preserve
    /// aspect ratio (`-2` keeps the width an even number).
    pub height: u32,
    /// Hint width at 16:9, as a master playlist's `RESOLUTION` declares it.
    pub width_hint: u32,
    /// Target video bitrate (e.g. `"2800k"`).
    pub video_bitrate: &'static str,
    /// Maximum video bitrate cap (typically 10-20% above the target).
    pub video_maxrate: &'static str,
    /// VBV buffer size for the rate controller.
    pub video_bufsize: &'static str,
    /// x264 profile (`baseline`/`main`/`high`).
    pub video_profile: &'static str,
    /// H.264 level (encoded as a decimal string, e.g. `"3.1"`).
    pub video_level: &'static str,
    /// Audio bitrate (e.g. `"128k"`).
    pub audio_bitrate: &'static str,
}

/// One rendition as texts and numbers.
#[verifier::ext_equal]
pub struct Rendition {
    pub name: Seq<char>,
    pub height: nat,
    pub width_hint: nat,
    pub video_bitrate: Seq<char>,
    pub video_maxrate: Seq<char>,
    pub video_bufsize: Seq<char>,
    pub video_profile: Seq<char>,
    pub video_level: Seq<char>,
    pub audio_bitrate: Seq<char>,
}

impl View for HlsVariant {
    type V = Rendition;

    open spec fn view(&self) -> Rendition {
        Rendition {
            name: self.name@,
            height: self.height as nat,
            width_hint: self.width_hint as nat,
            video_bitrate: self.video_bitrate@,
            video_maxrate: self.video_maxrate@,
            video_bufsize: self.video_bufsize@,
            video_profile: self.video_profile@,
            video_level: self.video_level@,
            audio_bitrate: self.audio_bitrate@,
        }
    }
}

/// The 360p rendition.
pub open spec fn rendition_360() -> Rendition {
    Rendition {
        name: "360p"@,
        height: 360,
        width_hint: 640,
        video_bitrate: "800k"@,
        video_maxrate: "900k"@,
        video_bufsize: "1600k"@,
        video_profile: "main"@,
        video_level: "3.0"@,
        audio_bitrate: "96k"@,
    }
}

/// The 720p rendition.
pub open spec fn rendition_720() -> Rendition {
    Rendition {
        name: "720p"@,
        height: 720,
        width_hint: 1280,
        video_bitrate: "2800k"@,
        video_maxrate: "3200k"@,
        video_bufsize: "5600k"@,
        video_profile: "main"@,
        video_level: "3.1"@,
        audio_bitrate: "128k"@,
    }
}

/// The 1080p rendition.
pub open spec fn rendition_1080() -> Rendition {
    Rendition {
        name: "1080p"@,
        height: 1080,
        width_hint: 1920,
        video_bitrate: "5000k"@,
        video_maxrate: "5500k"@,
        video_bufsize: "10000k"@,
        video_profile: "high"@,
        video_level: "4.0"@,
        audio_bitrate: "128k"@,
    }
}

/// The renditions of an HLS bundle, from the smallest up.
pub open spec fn ladder() -> Seq<Rendition> {
    seq![rendition_360(), rendition_720(), rendition_1080()]
}

/// HLS rendition ladder. Three steps wide enough to span phone-tier
/// connections through TV-grade Wi-Fi.
pub fn hls_variants() -> (r: &'static [HlsVariant])
    ensures
        r@.map_values(|v: HlsVariant| v@) == ladder(),
        r@.len() == 3,
{
    let r: &'static [HlsVariant] = &[
        HlsVariant {
            name: "360p",
            height: 360,
            width_hint: 640,
            video_bitrate: "800k",
            video_maxrate: "900k",
            video_bufsize: "1600k",
            video_profile: "main",
            video_level: "3.0",
            audio_bitrate: "96k",
        },
        HlsVariant {
            name: "720p",
            height: 720,
            width_hint: 1280,
            video_bitrate: "2800k",
            video_maxrate: "3200k",
            video_bufsize: "5600k",
            video_profile: "main",
            video_level: "3.1",
            audio_bitrate: "128k",
        },
        HlsVariant {
            name: "1080p",
            height: 1080,
            width_hint: 1920,
            video_bitrate: "5000k",
            video_maxrate: "5500k",
            video_bufsize: "10000k",
            video_profile: "high",
            video_level: "4.0",
            audio_bitrate: "128k",
        },
    ];
    assert(r@.map_values(|v: HlsVariant| v@) =~= ladder());
    r
}

/// HLS segment duration target in seconds. 6s is short enough for snappy
/// starts and adaptive bitrate switching, long enough that segment overhead is
/// small.
pub const HLS_SEGMENT_SECONDS: u32 = 6;

/// Fixed ffmpeg fragment for the Web profile.
///
/// * Video: libx264, preset slow, CRF 20, profile high, level 4.0, yuv420p
/// * Audio: AAC, stereo downmix (`-ac 2`), 192 kbps
/// * Container flag: `-movflags +faststart` (moov atom at file start, so
///   the player can begin playback before the file is fully buffered)
pub open spec fn web_args() -> Seq<Seq<char>> {
    seq![
        "-c:v"@,
        "libx264"@,
        "-preset"@,
        "slow"@,
        "-crf"@,
        "20"@,
        "-profile:v"@,
        "high"@,
        "-level"@,
        "4.0"@,
        "-pix_fmt"@,
        "yuv420p"@,
        "-c:a"@,
        "aac"@,
        "-ac"@,
        "2"@,
        "-b:a"@,
        "192k"@,
        "-movflags"@,
        "+faststart"@,
    ]
}

/// The fixed ffmpeg fragment for the Web profile.
pub fn web_encoder_args() -> (r: &'static [&'static str])
    ensures
        text::str_texts(r@) == web_args(),
{
    let r: &'static [&'static str] = &[
        "-c:v",
        "libx264",
        "-preset",
        "slow",
        "-crf",
        "20",
        "-profile:v",
        "high",
        "-level",
        "4.0",
        "-pix_fmt",
        "yuv420p",
        "-c:a",
        "aac",
        "-ac",
        "2",
        "-b:a",
        "192k",
        "-movflags",
        "+faststart",
    ];
    assert(text::str_texts(r@) =~= web_args());
    r
}

/// The number in a text of digits with a `k` behind them.
pub open spec fn kbps(t: Seq<char>) -> nat {
    text::value_of(t.drop_last())
}

/// Whether a text is digits with a `k` behind them.
pub open spec fn is_kbps(t: Seq<char>) -> bool {
    t.len() > 1 && t.last() == 'k' && text::all_digits(t.drop_last())
}

/// The bitrates of the ladder as numbers.
proof fn lemma_ladder_kbps()
    ensures
        is_kbps("800k"@) && kbps("800k"@) == 800,
        is_kbps("2800k"@) && kbps("2800k"@) == 2800,
        is_kbps("5000k"@) && kbps("5000k"@) == 5000,
{
    reveal_strlit("800k");
    reveal_strlit("2800k");
    reveal_strlit("5000k");
    let e = Seq::<char>::empty();
    assert(text::value_of(e) == 0);
    text::lemma_value_step(e, '8');
    text::lemma_value_step(e.push('8'), '0');
    text::lemma_value_step(e.push('8').push('0'), '0');
    assert("800k"@.drop_last() =~= e.push('8').push('0').push('0'));
    text::lemma_value_step(e, '2');
    text::lemma_value_step(e.push('2'), '8');
    text::lemma_value_step(e.push('2').push('8'), '0');
    text::lemma_value_step(e.push('2').push('8').push('0'), '0');
    assert("2800k"@.drop_last() =~= e.push('2').push('8').push('0').push('0'));
    text::lemma_value_step(e, '5');
    text::lemma_value_step(e.push('5'), '0');
    text::lemma_value_step(e.push('5').push('0'), '0');
    text::lemma_value_step(e.push('5').push('0').push('0'), '0');
    assert("5000k"@.drop_last() =~= e.push('5').push('0').push('0').push('0'));
}

/// Each rendition of the ladder is higher than the one before and has a higher
/// video bitrate, and no two share a folder.
pub proof fn law_ladder_climbs(i: int, j: int)
    requires
        0 <= i < j < ladder().len(),
    ensures
        ladder()[i].height < ladder()[j].height,
        is_kbps(ladder()[i].video_bitrate) && is_kbps(ladder()[j].video_bitrate),
        kbps(ladder()[i].video_bitrate) < kbps(ladder()[j].video_bitrate),
        ladder()[i].name != ladder()[j].name,
{
    lemma_ladder_kbps();
    reveal_strlit("360p");
    reveal_strlit("720p");
    reveal_strlit("1080p");
    assert("360p"@[0] == '3' && "720p"@[0] == '7' && "1080p"@[0] == '1');
}

/// Each rendition is named for its height, and its width is that of a picture of
/// 16 to 9.
pub proof fn law_renditions_are_named_for_their_height(i: int)
    requires
        0 <= i < ladder().len(),
    ensures
        ladder().len() == 3,
        ladder()[i].name == text::decimal(ladder()[i].height) + "p"@,
        ladder()[i].width_hint * 9 == ladder()[i].height * 16,
        ladder()[0].height == 360 && ladder()[1].height == 720 && ladder()[2].height == 1080,
{
    reveal_strlit("p");
    reveal_strlit("360p");
    reveal_strlit("720p");
    reveal_strlit("1080p");
    reveal_with_fuel(text::decimal, 5);
    assert(text::decimal(360) + "p"@ =~= "360p"@);
    assert(text::decimal(720) + "p"@ =~= "720p"@);
    assert(text::decimal(1080) + "p"@ =~= "1080p"@);
}

} // verus!
