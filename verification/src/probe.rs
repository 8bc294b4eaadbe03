//! What ffprobe says about a file.

use vstd::prelude::*;
use crate::convert::CommandLine;
use crate::text;

verus! {

/// What ffprobe prints about a file.
#[derive(Debug)]
pub struct ProbeOutput {
    pub streams: Vec<Stream>,
    pub format: Option<Format>,
}

/// One stream of a file.
#[derive(Debug)]
pub struct Stream {
    pub index: Option<u32>,
    pub codec_name: Option<String>,
    pub codec_type: Option<String>,
    pub width: Option<u32>,
    pub height: Option<u32>,
    pub bit_rate: Option<String>,
}

/// The file as a whole.
#[derive(Debug)]
pub struct Format {
    pub duration: Option<String>,
}

/// What the encoder needs to know of a file.
#[derive(Debug)]
pub struct VideoInfo {
    pub codec: String,
    pub width: Option<u32>,
    pub height: Option<u32>,
    pub bit_rate: Option<u64>,
    /// The duration in seconds, as ffprobe writes it.
    pub duration: Option<String>,
    /// Codec name (`codec_name` from ffprobe) for each subtitle stream, in
    /// source-stream order. The encoder picks a per-stream output codec by it.
    pub subtitle_codecs: Vec<String>,
    /// Source-stream indices the muxer can't accept: streams where ffprobe
    /// reports no `codec_name`. The encoder negative-maps these.
    pub unmappable_stream_indices: Vec<usize>,
}

/// Why nothing is known of a file.
#[derive(Debug)]
pub enum ProbeError {
    /// ffprobe could not be started.
    NotStarted,
    /// ffprobe ended with a failure and said this.
    Failed(String),
    /// What ffprobe printed could not be read.
    Unreadable,
    /// The file has no video stream.
    NoVideo,
}

/// Whether a stream's codec is known.
pub open spec fn has_codec(s: Stream) -> bool {
    s.codec_name matches Some(c) && c@.len() > 0
}

/// Whether a stream has a known codec and is of this kind.
pub open spec fn is_kind(s: Stream, kind: Seq<char>) -> bool {
    has_codec(s) && (s.codec_type matches Some(t) && t@ == kind)
}

/// Whether stream `i` is the first video stream with a known codec.
pub open spec fn is_first_video(streams: Seq<Stream>, i: int) -> bool {
    &&& 0 <= i < streams.len()
    &&& is_kind(streams[i], "video"@)
    &&& forall|j: int| 0 <= j < i ==> !is_kind(#[trigger] streams[j], "video"@)
}

/// The codecs of the subtitle streams among the first `k`.
pub open spec fn subtitle_codecs_among(streams: Seq<Stream>, k: nat) -> Seq<Seq<char>>
    decreases k,
{
    if k == 0 {
        Seq::empty()
    } else {
        let before = subtitle_codecs_among(streams, (k - 1) as nat);
        if is_kind(streams[k - 1], "subtitle"@) {
            before.push(streams[k - 1].codec_name->0@)
        } else {
            before
        }
    }
}

/// The indices of the streams without a known codec among the first `k`.
pub open spec fn unmappable_among(streams: Seq<Stream>, k: nat) -> Seq<usize>
    decreases k,
{
    if k == 0 {
        Seq::empty()
    } else {
        let before = unmappable_among(streams, (k - 1) as nat);
        match streams[k - 1].index {
            Some(i) => if has_codec(streams[k - 1]) {
                before
            } else {
                before.push(i as usize)
            },
            None => before,
        }
    }
}

/// The duration that ffprobe states.
pub open spec fn stated_duration(p: ProbeOutput) -> Option<Seq<char>> {
    match p.format {
        Some(f) => text::opt_text(f.duration),
        None => None,
    }
}

/// Whether `info` sums up `p`, stream `i` being its video.
pub open spec fn sums_up(info: VideoInfo, p: ProbeOutput, i: int) -> bool {
    let s = p.streams@[i];
    &&& info.codec@ == s.codec_name->0@
    &&& info.width == s.width
    &&& info.height == s.height
    &&& info.bit_rate == match s.bit_rate {
        Some(t) => text::u64_of(t@),
        None => None,
    }
    &&& text::opt_text(info.duration) == stated_duration(p)
    &&& text::texts(info.subtitle_codecs@) == subtitle_codecs_among(p.streams@, p.streams@.len())
    &&& info.unmappable_stream_indices@ == unmappable_among(p.streams@, p.streams@.len())
}

/// The failure in words.
pub open spec fn probe_error_text(e: ProbeError, path: Seq<char>) -> Seq<char> {
    match e {
        ProbeError::NotStarted => "failed to invoke ffprobe (is it installed and on PATH?)"@,
        ProbeError::Failed(said) => "ffprobe failed for "@ + path + ": "@ + text::trim(said@),
        ProbeError::Unreadable => "failed to parse ffprobe JSON for "@ + path,
        ProbeError::NoVideo => "no video stream found in "@ + path,
    }
}

impl ProbeError {
    /// The failure in words.
    pub fn message(&self, path: &str) -> (r: String)
        ensures
            r@ == probe_error_text(*self, path@),
    {
        match self {
            ProbeError::NotStarted => "failed to invoke ffprobe (is it installed and on PATH?)".to_owned(),
            ProbeError::Failed(said) => {
                let chars = text::chars_of(said.as_str());
                let trimmed = text::trimmed(&chars, 0, chars.len());
                assert(chars@.subrange(0, chars@.len() as int) =~= chars@);
                let mut line = text::cat3("ffprobe failed for ", path, ": ");
                line.append(trimmed.as_str());
                line
            },
            ProbeError::Unreadable => text::cat("failed to parse ffprobe JSON for ", path),
            ProbeError::NoVideo => text::cat("no video stream found in ", path),
        }
    }
}

impl VideoInfo {
    /// How many subtitle streams the file has.
    pub fn subtitle_count(&self) -> (r: usize)
        ensures
            r == self.subtitle_codecs@.len(),
    {
        self.subtitle_codecs.len()
    }
}

/// The arguments for ffprobe.
pub open spec fn probe_args(path: Seq<char>) -> Seq<Seq<char>> {
    seq![
        "-v"@,
        "error"@,
        "-show_entries"@,
        "stream=index,codec_name,codec_type,width,height,bit_rate:format=duration"@,
        "-of"@,
        "json"@,
        path,
    ]
}

/// The `ffprobe` invocation for a file.
pub fn build_ffprobe_command(path: &str) -> (r: CommandLine)
    ensures
        r.program@ == "ffprobe"@,
        text::texts(r.args@) == probe_args(path@),
{
    let mut args: Vec<String> = Vec::new();
    text::push_pair(&mut args, "-v", "error");
    text::push_pair(
        &mut args,
        "-show_entries",
        "stream=index,codec_name,codec_type,width,height,bit_rate:format=duration",
    );
    text::push_pair(&mut args, "-of", "json");
    text::push_text(&mut args, path);
    assert(text::texts(args@) =~= probe_args(path@));
    CommandLine { program: "ffprobe", args }
}

fn knows_codec(s: &Stream) -> (r: bool)
    ensures
        r == has_codec(*s),
{
    match &s.codec_name {
        Some(c) => !c.as_str().is_empty(),
        None => false,
    }
}

fn of_kind(s: &Stream, kind: &str) -> (r: bool)
    ensures
        r == is_kind(*s, kind@),
{
    if !knows_codec(s) {
        return false;
    }
    match &s.codec_type {
        Some(t) => text::same(t.as_str(), kind),
        None => false,
    }
}

/// Sums up what ffprobe says about a file: the first video stream with a known
/// codec, the codecs of the subtitle streams and the streams to be dropped.
pub fn video_info(probe: &ProbeOutput) -> (r: Result<VideoInfo, ProbeError>)
    ensures
        match r {
            Ok(info) => exists|i: int| #[trigger]
                is_first_video(probe.streams@, i) && sums_up(info, *probe, i),
            Err(e) => e is NoVideo && forall|i: int|
                0 <= i < probe.streams@.len() ==> !is_kind(
                    #[trigger] probe.streams@[i],
                    "video"@,
                ),
        },
{
    let streams = &probe.streams;
    let mut video: Option<usize> = None;
    let mut subtitle_codecs: Vec<String> = Vec::new();
    let mut unmappable: Vec<usize> = Vec::new();
    let mut k: usize = 0;
    assert(text::texts(subtitle_codecs@) =~= subtitle_codecs_among(streams@, 0));
    proof {
        reveal_strlit("video");
        reveal_strlit("subtitle");
        assert("video"@ != "subtitle"@) by {
            assert("video"@.len() != "subtitle"@.len());
        }
    }
    while k < streams.len()
        invariant
            k <= streams@.len(),
            "video"@ != "subtitle"@,
            match video {
                Some(i) => i < k && is_first_video(streams@, i as int),
                None => forall|i: int|
                    0 <= i < k ==> !is_kind(#[trigger] streams@[i], "video"@),
            },
            text::texts(subtitle_codecs@) == subtitle_codecs_among(streams@, k as nat),
            unmappable@ == unmappable_among(streams@, k as nat),
        decreases streams@.len() - k,
    {
        let s = &streams[k];
        if !knows_codec(s) {
            match s.index {
                Some(index) => {
                    unmappable.push(index as usize);
                },
                None => {},
            }
        } else if of_kind(s, "video") {
            if video.is_none() {
                video = Some(k);
            }
        } else if of_kind(s, "subtitle") {
            match &s.codec_name {
                Some(c) => {
                    text::push_text(&mut subtitle_codecs, c.as_str());
                },
                None => {},
            }
        }
        k += 1;
    }
    match video {
        Some(i) => {
            let s = &streams[i];
            let codec = match &s.codec_name {
                Some(c) => c.as_str().to_owned(),
                None => String::new(),
            };
            let bit_rate: Option<u64> = match &s.bit_rate {
                Some(t) => text::parse_u64(t.as_str()),
                None => None,
            };
            let duration = match &probe.format {
                Some(f) => text::copy_text(&f.duration),
                None => None,
            };
            let info = VideoInfo {
                codec,
                width: s.width,
                height: s.height,
                bit_rate,
                duration,
                subtitle_codecs,
                unmappable_stream_indices: unmappable,
            };
            assert(is_first_video(probe.streams@, i as int) && sums_up(info, *probe, i as int));
            Ok(info)
        },
        None => Err(ProbeError::NoVideo),
    }
}

/// The codec of a file's first video stream with a known codec.
pub fn video_codec(probe: &ProbeOutput) -> (r: Result<String, ProbeError>)
    ensures
        match r {
            Ok(codec) => exists|i: int| #[trigger]
                is_first_video(probe.streams@, i) && codec@ == probe.streams@[i].codec_name->0@,
            Err(e) => e is NoVideo && forall|i: int|
                0 <= i < probe.streams@.len() ==> !is_kind(
                    #[trigger] probe.streams@[i],
                    "video"@,
                ),
        },
{
    match video_info(probe) {
        Ok(info) => {
            let ghost i = choose|i: int| #[trigger]
                is_first_video(probe.streams@, i) && sums_up(info, *probe, i);
            assert(is_first_video(probe.streams@, i));
            Ok(info.codec)
        },
        Err(e) => Err(e),
    }
}

// -------------------------------------------------------------------- laws --

/// There is one first video stream at most.
pub proof fn law_first_video_is_unique(streams: Seq<Stream>, i: int, j: int)
    requires
        is_first_video(streams, i),
        is_first_video(streams, j),
    ensures
        i == j,
{
    if i < j {
        assert(!is_kind(streams[i], "video"@));
    } else if j < i {
        assert(!is_kind(streams[j], "video"@));
    }
}

/// No stream is counted twice: what is dropped, the subtitles and the video are
/// different streams.
pub proof fn law_streams_are_sorted_apart(s: Stream)
    ensures
        !(is_kind(s, "video"@) && is_kind(s, "subtitle"@)),
        !has_codec(s) ==> !is_kind(s, "video"@) && !is_kind(s, "subtitle"@),
{
    reveal_strlit("video");
    reveal_strlit("subtitle");
    assert("video"@.len() != "subtitle"@.len());
}

/// What is known of a video is what ffprobe says of its first video stream: the
/// codec, the width, the height and the bit rate of that stream, and the duration
/// of the file.
pub proof fn law_info_is_that_of_the_first_video(info: VideoInfo, p: ProbeOutput, i: int)
    requires
        is_first_video(p.streams@, i),
        sums_up(info, p, i),
    ensures
        p.streams@[i].codec_type matches Some(t) && t@ == "video"@,
        p.streams@[i].codec_name matches Some(c) && c@.len() > 0 && info.codec@ == c@,
        info.width == p.streams@[i].width,
        info.height == p.streams@[i].height,
        p.streams@[i].bit_rate is None ==> info.bit_rate is None,
        (p.streams@[i].bit_rate matches Some(t) && text::all_digits(t@) && text::value_of(t@)
            <= u64::MAX) ==> info.bit_rate == Some(
            text::value_of(p.streams@[i].bit_rate->0@) as u64,
        ),
        p.format is None ==> info.duration is None,
        p.format matches Some(f) ==> text::opt_text(info.duration) == text::opt_text(f.duration),
        forall|j: int|
            0 <= j < i && ((#[trigger] p.streams@[j]).codec_type matches Some(t) && t@ == "video"@)
                ==> !(p.streams@[j].codec_name matches Some(c) && c@.len() > 0),
{
    assert forall|j: int|
        0 <= j < i && ((#[trigger] p.streams@[j]).codec_type matches Some(t) && t@
            == "video"@) implies !(p.streams@[j].codec_name matches Some(c) && c@.len() > 0) by {
        assert(!is_kind(p.streams@[j], "video"@));
    }
}

/// The codecs of the subtitles are those of the subtitle streams with a known
/// codec, in the order of the streams and one for each.
pub proof fn law_subtitles_come_in_order(streams: Seq<Stream>, k: nat) -> (at: Seq<int>)
    requires
        k <= streams.len(),
    ensures
        at.len() == subtitle_codecs_among(streams, k).len(),
        forall|m: int|
            0 <= m < at.len() ==> 0 <= #[trigger] at[m] < k && (streams[at[m]].codec_type matches Some(
                t,
            ) && t@ == "subtitle"@) && (streams[at[m]].codec_name matches Some(c) && c@.len() > 0
                && subtitle_codecs_among(streams, k)[m] == c@),
        forall|m: int, n: int| 0 <= m < n < at.len() ==> at[m] < at[n],
        forall|j: int|
            0 <= j < k && ((#[trigger] streams[j]).codec_type matches Some(t) && t@ == "subtitle"@)
                && (streams[j].codec_name matches Some(c) && c@.len() > 0) ==> at.contains(j),
    decreases k,
{
    if k == 0 {
        Seq::empty()
    } else {
        let before = law_subtitles_come_in_order(streams, (k - 1) as nat);
        if is_kind(streams[k - 1], "subtitle"@) {
            let at = before.push(k - 1);
            assert forall|j: int|
                0 <= j < k && ((#[trigger] streams[j]).codec_type matches Some(t) && t@
                    == "subtitle"@) && (streams[j].codec_name matches Some(c) && c@.len()
                    > 0) implies at.contains(j) by {
                if j < k - 1 {
                    assert(before.contains(j));
                    let m = choose|m: int| 0 <= m < before.len() && before[m] == j;
                    assert(at[m] == j);
                } else {
                    assert(at[before.len() as int] == j);
                }
            }
            at
        } else {
            before
        }
    }
}

/// The streams that are dropped are those of which ffprobe names no codec but an
/// index, by that index, in order and each once.
pub proof fn law_nameless_streams_are_dropped(streams: Seq<Stream>, k: nat) -> (at: Seq<int>)
    requires
        k <= streams.len(),
    ensures
        at.len() == unmappable_among(streams, k).len(),
        forall|m: int|
            0 <= m < at.len() ==> 0 <= #[trigger] at[m] < k && !(streams[at[m]].codec_name matches Some(
                c,
            ) && c@.len() > 0) && (streams[at[m]].index matches Some(i) && unmappable_among(
                streams,
                k,
            )[m] == i),
        forall|m: int, n: int| 0 <= m < n < at.len() ==> at[m] < at[n],
        forall|j: int|
            0 <= j < k && (#[trigger] streams[j]).index is Some && !(streams[j].codec_name matches Some(
                c,
            ) && c@.len() > 0) ==> at.contains(j),
    decreases k,
{
    if k == 0 {
        Seq::empty()
    } else {
        let before = law_nameless_streams_are_dropped(streams, (k - 1) as nat);
        if streams[k - 1].index is Some && !has_codec(streams[k - 1]) {
            let at = before.push(k - 1);
            assert forall|j: int|
                0 <= j < k && (#[trigger] streams[j]).index is Some && !(
                streams[j].codec_name matches Some(c) && c@.len() > 0) implies at.contains(j) by {
                if j < k - 1 {
                    assert(before.contains(j));
                    let m = choose|m: int| 0 <= m < before.len() && before[m] == j;
                    assert(at[m] == j);
                } else {
                    assert(at[before.len() as int] == j);
                }
            }
            at
        } else {
            before
        }
    }
}

/// ffprobe is asked, as JSON, for everything that is read from its answer, and
/// the file comes last.
pub proof fn law_what_ffprobe_is_asked(path: Seq<char>)
    ensures
        probe_args(path).len() == 7,
        probe_args(path).last() == path,
        probe_args(path)[2] == "-show_entries"@,
        probe_args(path)[3]
            == "stream=index,codec_name,codec_type,width,height,bit_rate:format=duration"@,
        probe_args(path)[4] == "-of"@ && probe_args(path)[5] == "json"@,
{
}

} // verus!
