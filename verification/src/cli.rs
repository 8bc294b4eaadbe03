//! A run over a source: what is asked for, what becomes of each file, and what
//! is said about it.

use vstd::prelude::*;
use crate::backend;
use crate::backend::Backend;
use crate::codec;
use crate::codec::Codec;
use crate::container::Container;
use crate::convert::{EncodeOptions, Settings, SubtitleInput, SubtitleText};
use crate::output;
use crate::path;
use crate::profile::EncodingProfile;
use crate::scan;
use crate::text;
use crate::upscale::Upscale;

verus! {

/// What the user asks for.
#[derive(Debug)]
pub struct Cli {
    /// Source directory to scan for video files, or a single video file.
    pub source: String,
    /// Output directory; converted files mirror the source tree.
    pub output: Option<String>,
    /// Top-level transcoding mode.
    pub profile: EncodingProfile,
    /// Target video codec.
    pub codec: Codec,
    /// Output container.
    pub container: Container,
    /// Encoder backend.
    pub backend: Backend,
    /// Quality value; a backend-aware default where it is omitted.
    pub quality: Option<u8>,
    /// Encoder preset; a backend-aware default where it is omitted.
    pub preset: Option<String>,
    /// Output resolution.
    pub upscale: Upscale,
    /// Scan and report what would be converted, without running ffmpeg.
    pub dry_run: bool,
    /// Re-encode even if the source video stream is already in the target codec.
    pub force: bool,
    /// Do not descend into subdirectories.
    pub no_recurse: bool,
    /// Mux sidecar `.srt` files into the output.
    pub embed_subtitles: bool,
    /// Merge sidecar `.srt` files without re-encoding the video.
    pub merge_subtitles: bool,
}

// -------------------------------------------------------------- validation --

/// Why a run is refused.
#[derive(Copy, Clone, Debug, PartialEq, Eq, Structural)]
pub enum UsageError {
    WebWithMerge,
    HlsWithMerge,
    QualityTooHigh(u8),
    NotVideo,
    NoSource,
}

/// What is wrong with mixing a profile with merge mode, if anything.
pub open spec fn merge_conflict(p: EncodingProfile, merge: bool) -> Option<UsageError> {
    if p == EncodingProfile::Web && merge {
        Some(UsageError::WebWithMerge)
    } else if p == EncodingProfile::Hls && merge {
        Some(UsageError::HlsWithMerge)
    } else {
        None
    }
}

/// The first thing that is wrong with a run, if anything is: the options
/// first, then the source, of which is known whether it exists as a file or as
/// a directory.
pub open spec fn usage_error(args: Cli, is_file: bool, is_dir: bool) -> Option<UsageError> {
    if merge_conflict(args.profile, args.merge_subtitles) is Some {
        merge_conflict(args.profile, args.merge_subtitles)
    } else if args.quality matches Some(q) && q > 63 {
        Some(UsageError::QualityTooHigh(args.quality->0))
    } else if is_file {
        if scan::has_video_extension(args.source@) {
            None
        } else {
            Some(UsageError::NotVideo)
        }
    } else if is_dir {
        None
    } else {
        Some(UsageError::NoSource)
    }
}

/// The refusal in words.
pub open spec fn usage_error_text(e: UsageError, source: Seq<char>) -> Seq<char> {
    match e {
        UsageError::WebWithMerge =>
            "--profile web is incompatible with --merge-subtitles: web mode re-encodes the video, while merge-subtitles stream-copies it. Pick one."@,
        UsageError::HlsWithMerge =>
            "--profile hls is incompatible with --merge-subtitles: hls mode re-encodes a full rendition ladder, while merge-subtitles stream-copies the video. Pick one."@,
        UsageError::QualityTooHigh(q) => "--quality must be 0-63 (got "@ + text::decimal(q as nat)
            + "); see backend docs for the meaningful range"@,
        UsageError::NotVideo => "source file is not a recognised video format: "@ + source,
        UsageError::NoSource => "source does not exist: "@ + source,
    }
}

impl UsageError {
    /// The refusal in words.
    pub fn message(&self, source: &str) -> (r: String)
        ensures
            r@ == usage_error_text(*self, source@),
    {
        match self {
            UsageError::WebWithMerge =>
                "--profile web is incompatible with --merge-subtitles: web mode re-encodes the video, while merge-subtitles stream-copies it. Pick one.".to_owned(),
            UsageError::HlsWithMerge =>
                "--profile hls is incompatible with --merge-subtitles: hls mode re-encodes a full rendition ladder, while merge-subtitles stream-copies the video. Pick one.".to_owned(),
            UsageError::QualityTooHigh(q) => {
                let digits = text::decimal_string(*q as u128);
                text::cat3(
                    "--quality must be 0-63 (got ",
                    digits.as_str(),
                    "); see backend docs for the meaningful range",
                )
            },
            UsageError::NotVideo => text::cat(
                "source file is not a recognised video format: ",
                source,
            ),
            UsageError::NoSource => text::cat("source does not exist: ", source),
        }
    }
}

/// What is wrong with mixing a profile with merge mode, if anything.
pub fn check_merge(profile: EncodingProfile, merge: bool) -> (r: Option<UsageError>)
    ensures
        r == merge_conflict(profile, merge),
{
    if merge && profile == EncodingProfile::Web {
        Some(UsageError::WebWithMerge)
    } else if merge && profile == EncodingProfile::Hls {
        Some(UsageError::HlsWithMerge)
    } else {
        None
    }
}

/// Checks the options against each other and against the source, and returns
/// whether the source is a single file.
pub fn validate(args: &Cli, is_file: bool, is_dir: bool) -> (r: Result<bool, UsageError>)
    ensures
        match r {
            Ok(single) => usage_error(*args, is_file, is_dir) is None && single == is_file,
            Err(e) => usage_error(*args, is_file, is_dir) == Some(e),
        },
{
    match check_merge(args.profile, args.merge_subtitles) {
        Some(e) => {
            return Err(e);
        },
        None => {},
    }
    match args.quality {
        Some(q) => {
            if q > 63 {
                return Err(UsageError::QualityTooHigh(q));
            }
        },
        None => {},
    }
    if is_file {
        if scan::is_video(args.source.as_str()) {
            Ok(true)
        } else {
            Err(UsageError::NotVideo)
        }
    } else if is_dir {
        Ok(false)
    } else {
        Err(UsageError::NoSource)
    }
}

// ----------------------------------------------------------------- outputs --

/// The directory, or the single file, that all outputs share; empty for a
/// bundle profile without one.
pub open spec fn shared_root(args: Cli, single: bool) -> Seq<char> {
    match args.output {
        Some(o) => o@,
        None => if args.profile == EncodingProfile::Standard {
            output::default_path(args.source@, single, args.container)
        } else {
            ""@
        },
    }
}

/// Whether the shared output is a directory that is to be validated. A bundle
/// profile has one only where it is asked for, and a single source may be
/// written to a file instead; an HLS bundle is itself a directory.
pub open spec fn has_shared_dir(
    args: Cli,
    single: bool,
    root: Seq<char>,
    root_is_dir: bool,
    root_is_file: bool,
) -> bool {
    match args.profile {
        EncodingProfile::Standard => !(single && output::names_file(
            root,
            root_is_dir,
            root_is_file,
        )),
        EncodingProfile::Web => args.output is Some && !output::names_file(
            root,
            root_is_dir,
            root_is_file,
        ),
        EncodingProfile::Hls => args.output is Some,
    }
}

/// The directory that the files of a source are taken relative to: its own
/// where it is a single file.
pub open spec fn source_root(source: Seq<char>, single: bool) -> Seq<char> {
    if single {
        match path::parent(source) {
            Some(d) => d,
            None => ""@,
        }
    } else {
        source
    }
}

/// A path relative to a directory; the path itself where it does not lie there.
pub open spec fn relative_to(input: Seq<char>, base: Seq<char>) -> Seq<char> {
    match path::stripped(input, base) {
        Some(rel) => rel,
        None => input,
    }
}

/// Where a source's output goes.
pub open spec fn output_of(
    args: Cli,
    single: bool,
    root: Seq<char>,
    root_is_dir: bool,
    root_is_file: bool,
    input: Seq<char>,
    rel: Seq<char>,
) -> Seq<char> {
    let is_file = output::names_file(root, root_is_dir, root_is_file);
    match args.profile {
        EncodingProfile::Standard => if single && is_file {
            root
        } else {
            output::encoded_path(root, rel, args.container)
        },
        EncodingProfile::Web => if args.output is None {
            output::beside(input, output::web_name(input))
        } else if is_file {
            root
        } else {
            output::mirrored(root, rel, output::web_name(rel))
        },
        EncodingProfile::Hls => if args.output is None {
            output::beside(input, output::hls_name(input))
        } else {
            output::mirrored(root, rel, output::hls_name(rel))
        },
    }
}

/// The directory, or the single file, that all outputs share.
pub fn output_root(args: &Cli, single: bool) -> (r: String)
    ensures
        r@ == shared_root(*args, single),
{
    match &args.output {
        Some(o) => o.as_str().to_owned(),
        None => {
            if args.profile == EncodingProfile::Standard {
                output::default_output(args.source.as_str(), single, args.container)
            } else {
                "".to_owned()
            }
        },
    }
}

/// What is said where the user gives no output.
pub open spec fn default_notice(args: Cli, root: Seq<char>) -> Option<Seq<char>> {
    if args.profile == EncodingProfile::Standard && args.output is None {
        Some("--output not given; defaulting to "@ + root)
    } else {
        None
    }
}

/// What is said where the user gives no output.
pub fn root_notice(args: &Cli, root: &str) -> (r: Option<String>)
    ensures
        text::opt_text(r) == default_notice(*args, root@),
{
    if args.profile == EncodingProfile::Standard && args.output.is_none() {
        Some(text::cat("--output not given; defaulting to ", root))
    } else {
        None
    }
}

/// Why the shared output cannot be used, if it cannot: outputs of several
/// sources need a directory.
pub open spec fn root_refusal_text(
    args: Cli,
    single: bool,
    root: Seq<char>,
    exists: bool,
    is_dir: bool,
) -> Option<Seq<char>> {
    if args.profile == EncodingProfile::Standard && exists && !is_dir && !single {
        Some("--output exists and is not a directory: "@ + root)
    } else {
        None
    }
}

/// Why the shared output cannot be used, if it cannot.
pub fn root_refusal(
    args: &Cli,
    single: bool,
    root: &str,
    exists: bool,
    is_dir: bool,
) -> (r: Option<String>)
    ensures
        text::opt_text(r) == root_refusal_text(*args, single, root@, exists, is_dir),
{
    if args.profile == EncodingProfile::Standard && exists && !is_dir && !single {
        Some(text::cat("--output exists and is not a directory: ", root))
    } else {
        None
    }
}

/// Whether the shared output is to be validated as a directory before the run:
/// where there is one, and the run is not a dry one.
pub fn checks_output_dir(
    args: &Cli,
    single: bool,
    root: &str,
    root_is_dir: bool,
    root_is_file: bool,
) -> (r: bool)
    ensures
        r == (!args.dry_run && has_shared_dir(*args, single, root@, root_is_dir, root_is_file)),
{
    if args.dry_run {
        return false;
    }
    let is_file = output::output_is_filepath(root, root_is_dir, root_is_file);
    match args.profile {
        EncodingProfile::Standard => !(single && is_file),
        EncodingProfile::Web => args.output.is_some() && !is_file,
        EncodingProfile::Hls => args.output.is_some(),
    }
}

/// The directory that the files of a source are taken relative to.
pub fn relative_root(source: &str, single: bool) -> (r: String)
    ensures
        r@ == source_root(source@, single),
{
    if single {
        match path::parent_of(source) {
            Some(d) => d,
            None => "".to_owned(),
        }
    } else {
        source.to_owned()
    }
}

/// A path relative to a directory; the path itself where it does not lie there.
pub fn relative_path(input: &str, base: &str) -> (r: String)
    ensures
        r@ == relative_to(input@, base@),
{
    match path::strip_base(input, base) {
        Some(rel) => rel,
        None => input.to_owned(),
    }
}

/// Where a source's output goes. `root_is_dir` and `root_is_file` are whether
/// the shared output exists as one.
pub fn file_output(
    args: &Cli,
    single: bool,
    root: &str,
    root_is_dir: bool,
    root_is_file: bool,
    input: &str,
    rel: &str,
) -> (r: String)
    ensures
        r@ == output_of(*args, single, root@, root_is_dir, root_is_file, input@, rel@),
{
    let is_file = output::output_is_filepath(root, root_is_dir, root_is_file);
    match args.profile {
        EncodingProfile::Standard => {
            if single && is_file {
                root.to_owned()
            } else {
                output::output_path(root, rel, args.container)
            }
        },
        EncodingProfile::Web => {
            if args.output.is_none() {
                output::web_output_path(input)
            } else if is_file {
                root.to_owned()
            } else {
                output::web_output_under_root(root, rel)
            }
        },
        EncodingProfile::Hls => {
            if args.output.is_none() {
                output::hls_output_path(input)
            } else {
                output::hls_output_under_root(root, rel)
            }
        },
    }
}

// --------------------------------------------------------------- decisions --

/// Whether a file is to be encoded.
#[derive(Debug)]
pub enum Decision {
    Encode,
    Skip(String),
}

/// Whether a file with this video codec is to be encoded: not where it already
/// is in the target codec, unless that is forced.
pub fn decide(source_codec: &str, target: Codec, force: bool) -> (r: Decision)
    ensures
        match r {
            Decision::Encode => force || !codec::is_target(target, source_codec@),
            Decision::Skip(reason) => !force && codec::is_target(target, source_codec@)
                && reason@ == "already "@ + codec::codec_label(target),
        },
{
    if !force && target.matches_source(source_codec) {
        Decision::Skip(text::cat("already ", target.label()))
    } else {
        Decision::Encode
    }
}

/// What has been learnt of a file.
#[derive(Debug)]
pub enum FileEvent {
    /// Whether its output exists.
    Output(bool),
    /// The codec of its video.
    Codec(String),
    /// Its codec could not be found out.
    ProbeFailed,
    /// How many subtitle files it has.
    Subtitles(usize),
}

/// What is to be done next with a file.
#[derive(Debug)]
pub enum FileStep {
    /// Find out the codec of its video.
    ProbeCodec,
    /// Look for its subtitle files.
    ListSubtitles,
    /// Leave it, for this reason.
    Skip(String),
    /// Count it as failed.
    GiveUp,
    /// Say what would be done with it.
    Announce,
    /// Run ffmpeg on it.
    Encode,
}

/// What has been learnt of a file, as text.
pub enum Learnt {
    Output(bool),
    Codec(Seq<char>),
    ProbeFailed,
    Subtitles(nat),
}

/// What is to be done next with a file, as text.
pub enum Next {
    ProbeCodec,
    ListSubtitles,
    Skip(Seq<char>),
    GiveUp,
    Announce,
    Encode,
}

impl View for FileEvent {
    type V = Learnt;

    open spec fn view(&self) -> Learnt {
        match *self {
            FileEvent::Output(exists) => Learnt::Output(exists),
            FileEvent::Codec(name) => Learnt::Codec(name@),
            FileEvent::ProbeFailed => Learnt::ProbeFailed,
            FileEvent::Subtitles(n) => Learnt::Subtitles(n as nat),
        }
    }
}

impl View for FileStep {
    type V = Next;

    open spec fn view(&self) -> Next {
        match *self {
            FileStep::ProbeCodec => Next::ProbeCodec,
            FileStep::ListSubtitles => Next::ListSubtitles,
            FileStep::Skip(reason) => Next::Skip(reason@),
            FileStep::GiveUp => Next::GiveUp,
            FileStep::Announce => Next::Announce,
            FileStep::Encode => Next::Encode,
        }
    }
}

/// What is done with a file that is to be converted.
pub open spec fn conversion(args: Cli) -> Next {
    if args.dry_run {
        Next::Announce
    } else {
        Next::Encode
    }
}

/// What follows once a file is known not to be in the target codec.
pub open spec fn toward_subtitles(args: Cli) -> Next {
    if args.embed_subtitles || args.merge_subtitles {
        Next::ListSubtitles
    } else {
        conversion(args)
    }
}

/// What is to be done next with a file: an existing output is kept, the codec
/// matters to a Standard run that re-encodes, and merging needs something to
/// merge.
pub open spec fn next_for_file(args: Cli, e: Learnt) -> Next {
    match e {
        Learnt::Output(exists) => if exists {
            Next::Skip("output exists"@)
        } else if args.profile == EncodingProfile::Standard && !args.merge_subtitles
            && !args.force {
            Next::ProbeCodec
        } else {
            toward_subtitles(args)
        },
        Learnt::Codec(name) => if !args.force && codec::is_target(args.codec, name) {
            Next::Skip("already "@ + codec::codec_label(args.codec))
        } else {
            toward_subtitles(args)
        },
        Learnt::ProbeFailed => Next::GiveUp,
        Learnt::Subtitles(n) => if args.merge_subtitles && n == 0 {
            Next::Skip("no sidecar subtitles to merge"@)
        } else {
            conversion(args)
        },
    }
}

fn convert_step(args: &Cli) -> (r: FileStep)
    ensures
        r@ == conversion(*args),
{
    if args.dry_run {
        FileStep::Announce
    } else {
        FileStep::Encode
    }
}

fn subtitle_step(args: &Cli) -> (r: FileStep)
    ensures
        r@ == toward_subtitles(*args),
{
    if args.embed_subtitles || args.merge_subtitles {
        FileStep::ListSubtitles
    } else {
        convert_step(args)
    }
}

/// What is to be done next with a file. A file begins with whether its output
/// exists.
pub fn file_step(args: &Cli, event: &FileEvent) -> (r: FileStep)
    ensures
        r@ == next_for_file(*args, event@),
{
    match event {
        FileEvent::Output(exists) => {
            if *exists {
                FileStep::Skip("output exists".to_owned())
            } else if args.profile == EncodingProfile::Standard && !args.merge_subtitles
                && !args.force {
                FileStep::ProbeCodec
            } else {
                subtitle_step(args)
            }
        },
        FileEvent::Codec(name) => match decide(name.as_str(), args.codec, args.force) {
            Decision::Skip(reason) => FileStep::Skip(reason),
            Decision::Encode => subtitle_step(args),
        },
        FileEvent::ProbeFailed => FileStep::GiveUp,
        FileEvent::Subtitles(n) => {
            if args.merge_subtitles && *n == 0 {
                FileStep::Skip("no sidecar subtitles to merge".to_owned())
            } else {
                convert_step(args)
            }
        },
    }
}

/// How a file is to be encoded.
pub open spec fn settings_for(
    args: Cli,
    subtitles: Seq<SubtitleText>,
    source_subtitle_codecs: Seq<Seq<char>>,
    unmappable: Seq<nat>,
) -> Settings {
    Settings {
        profile: args.profile,
        codec: args.codec,
        backend: args.backend,
        container: args.container,
        quality: match args.quality {
            Some(q) => q as nat,
            None => backend::default_quality(args.backend, args.codec) as nat,
        },
        preset: text::opt_text(args.preset),
        subtitles,
        source_subtitle_codecs,
        unmappable,
        merge_only: args.merge_subtitles,
        upscale: args.upscale,
    }
}

/// How a file is to be encoded.
pub fn encode_options<'a>(
    args: &'a Cli,
    subtitles: &'a [SubtitleInput],
    source_subtitle_codecs: &'a [String],
    unmappable_stream_indices: &'a [usize],
) -> (r: EncodeOptions<'a>)
    ensures
        r@ == settings_for(
            *args,
            subtitles@.map_values(|s: SubtitleInput| s@),
            text::texts(source_subtitle_codecs@),
            unmappable_stream_indices@.map_values(|i: usize| i as nat),
        ),
{
    let quality: u8 = match args.quality {
        Some(q) => q,
        None => args.backend.config(args.codec).default_quality,
    };
    let preset: Option<&'a str> = match &args.preset {
        Some(p) => Some(p.as_str()),
        None => None,
    };
    let r = EncodeOptions {
        profile: args.profile,
        codec: args.codec,
        backend: args.backend,
        container: args.container,
        quality,
        preset,
        subtitles,
        source_subtitle_codecs,
        unmappable_stream_indices,
        merge_only: args.merge_subtitles,
        upscale: args.upscale,
    };
    assert(r@ =~~= settings_for(
        *args,
        subtitles@.map_values(|s: SubtitleInput| s@),
        text::texts(source_subtitle_codecs@),
        unmappable_stream_indices@.map_values(|i: usize| i as nat),
    ));
    r
}

/// Subtitle files as inputs of an encode.
pub fn subtitle_inputs(found: &Vec<scan::SidecarSubtitle>) -> (r: Vec<SubtitleInput>)
    ensures
        r@.map_values(|s: SubtitleInput| s@) == scan::sidecar_texts(found@),
{
    let mut out: Vec<SubtitleInput> = Vec::new();
    let mut i: usize = 0;
    while i < found.len()
        invariant
            i <= found@.len(),
            out@.len() == i,
            forall|k: int| 0 <= k < i ==> (#[trigger] out@[k])@ == found@[k]@,
        decreases found@.len() - i,
    {
        out.push(
            SubtitleInput {
                path: found[i].path.as_str().to_owned(),
                language: text::copy_text(&found[i].language),
            },
        );
        i += 1;
    }
    assert(out@.map_values(|s: SubtitleInput| s@) =~= scan::sidecar_texts(found@));
    out
}

// ------------------------------------------------------------------- lines --

/// What is said where a program is missing.
pub open spec fn missing_program_text(program: Seq<char>) -> Seq<char> {
    "`"@ + program + "` not found on PATH; install ffmpeg first"@
}

/// What is said where a program is missing.
pub fn missing_program(program: &str) -> (r: String)
    ensures
        r@ == missing_program_text(program@),
{
    text::cat3("`", program, "` not found on PATH; install ffmpeg first")
}

/// What is said about the sources that were found.
pub open spec fn found_text(args: Cli, n: nat) -> Seq<char> {
    if n == 0 {
        "no video files found under "@ + args.source@
    } else {
        "found "@ + text::decimal(n) + (match args.profile {
            EncodingProfile::Web => " candidate file(s); profile: web (sibling .web.mp4)"@,
            EncodingProfile::Hls => " candidate file(s); profile: hls (sibling .hls/ bundle)"@,
            EncodingProfile::Standard => " candidate file(s); target codec: "@
                + codec::codec_label(args.codec),
        })
    }
}

/// What is said about the sources that were found.
pub fn found_line(args: &Cli, n: usize) -> (r: String)
    ensures
        r@ == found_text(*args, n as nat),
{
    if n == 0 {
        return text::cat("no video files found under ", args.source.as_str());
    }
    let count = text::decimal_string(n as u128);
    let tail = match args.profile {
        EncodingProfile::Web => " candidate file(s); profile: web (sibling .web.mp4)".to_owned(),
        EncodingProfile::Hls => " candidate file(s); profile: hls (sibling .hls/ bundle)".to_owned(),
        EncodingProfile::Standard => text::cat(
            " candidate file(s); target codec: ",
            args.codec.label(),
        ),
    };
    text::cat3("found ", count.as_str(), tail.as_str())
}

/// The place of a file in the run, counted from one.
pub open spec fn prefix_text(index: nat, total: nat) -> Seq<char> {
    "["@ + text::decimal(index + 1) + "/"@ + text::decimal(total) + "]"@
}

/// The place of a file in the run.
pub fn file_prefix(index: usize, total: usize) -> (r: String)
    ensures
        r@ == prefix_text(index as nat, total as nat),
{
    let i = text::decimal_string(index as u128 + 1);
    let n = text::decimal_string(total as u128);
    let mut r = text::cat3("[", i.as_str(), "/");
    r.append(n.as_str());
    r.append("]");
    r
}

/// What is said about a file that is left.
pub open spec fn skip_text(prefix: Seq<char>, reason: Seq<char>, rel: Seq<char>) -> Seq<char> {
    prefix + " skip ("@ + reason + "): "@ + rel
}

/// What is said about a file that is left.
pub fn skip_line(prefix: &str, reason: &str, rel: &str) -> (r: String)
    ensures
        r@ == skip_text(prefix@, reason@, rel@),
{
    let mut r = text::cat3(prefix, " skip (", reason);
    r.append("): ");
    r.append(rel);
    r
}

/// What is said about a file that would be converted, or is about to be.
pub open spec fn action_text(args: Cli, prefix: Seq<char>, rel: Seq<char>, output: Seq<char>) -> Seq<
    char,
> {
    prefix + (match (args.dry_run, args.merge_subtitles) {
        (true, true) => " would merge subs into: "@,
        (true, false) => " would encode: "@,
        (false, true) => " merging: "@,
        (false, false) => " encoding: "@,
    }) + rel + " -> "@ + output
}

/// What is said about a file that would be converted, or is about to be.
pub fn action_line(args: &Cli, prefix: &str, rel: &str, output: &str) -> (r: String)
    ensures
        r@ == action_text(*args, prefix@, rel@, output@),
{
    let verb = if args.dry_run {
        if args.merge_subtitles {
            " would merge subs into: "
        } else {
            " would encode: "
        }
    } else {
        if args.merge_subtitles {
            " merging: "
        } else {
            " encoding: "
        }
    };
    let mut r = text::cat3(prefix, verb, rel);
    r.append(" -> ");
    r.append(output);
    r
}

/// What is said about the subtitle files of a file.
pub open spec fn sidecars_text(prefix: Seq<char>, n: nat) -> Seq<char> {
    prefix + " found "@ + text::decimal(n) + " sidecar subtitle file(s)"@
}

/// What is said about the subtitle files of a file.
pub fn sidecars_line(prefix: &str, n: usize) -> (r: String)
    ensures
        r@ == sidecars_text(prefix@, n as nat),
{
    let count = text::decimal_string(n as u128);
    let mut r = text::cat3(prefix, " found ", count.as_str());
    r.append(" sidecar subtitle file(s)");
    r
}

/// How far a file has come: `[i/N]  NN% file`.
pub open spec fn percent_text(prefix: Seq<char>, percent: nat, rel: Seq<char>) -> Seq<char> {
    prefix + " "@ + text::pad_left(text::decimal(percent), 3) + "% "@ + rel
}

/// How far a file has come.
pub fn percent_line(prefix: &str, percent: u32, rel: &str) -> (r: String)
    ensures
        r@ == percent_text(prefix@, percent as nat, rel@),
{
    let digits = text::decimal_string(percent as u128);
    let padded = text::padded_left(digits.as_str(), 3);
    let mut r = text::cat3(prefix, " ", padded.as_str());
    r.append("% ");
    r.append(rel);
    r
}

/// What is said about a file whose codec could not be found out.
pub open spec fn probe_failed_text(prefix: Seq<char>, rel: Seq<char>, cause: Seq<char>) -> Seq<
    char,
> {
    prefix + " probe failed for "@ + rel + ": "@ + cause
}

/// What is said about a file whose codec could not be found out.
pub fn probe_failed_line(prefix: &str, rel: &str, cause: &str) -> (r: String)
    ensures
        r@ == probe_failed_text(prefix@, rel@, cause@),
{
    let mut r = text::cat3(prefix, " probe failed for ", rel);
    r.append(": ");
    r.append(cause);
    r
}

/// What is said about a file that could not be converted.
pub fn failed_line(prefix: &str, cause: &str) -> (r: String)
    ensures
        r@ == prefix@ + " FAILED: "@ + cause@,
{
    text::cat3(prefix, " FAILED: ", cause)
}

// ------------------------------------------------------------------ result --

/// What became of a file.
#[derive(Copy, Clone, Debug, PartialEq, Eq, Structural)]
pub enum Outcome {
    Converted,
    Skipped,
    Failed,
    /// A dry run said what would be done.
    Announced,
}

/// How many files ended in each way.
#[derive(Copy, Clone, Debug, PartialEq, Eq, Structural)]
pub struct Tally {
    pub converted: usize,
    pub skipped: usize,
    pub failed: usize,
}

/// How many of the outcomes are `o`.
pub open spec fn count_of(outcomes: Seq<Outcome>, o: Outcome) -> nat
    decreases outcomes.len(),
{
    if outcomes.len() == 0 {
        0
    } else {
        count_of(outcomes.drop_last(), o) + if outcomes.last() == o {
            1nat
        } else {
            0nat
        }
    }
}

/// Counts what became of the files.
pub fn tally(outcomes: &[Outcome]) -> (r: Tally)
    ensures
        r.converted == count_of(outcomes@, Outcome::Converted),
        r.skipped == count_of(outcomes@, Outcome::Skipped),
        r.failed == count_of(outcomes@, Outcome::Failed),
{
    let mut converted: usize = 0;
    let mut skipped: usize = 0;
    let mut failed: usize = 0;
    let mut i: usize = 0;
    while i < outcomes.len()
        invariant
            i <= outcomes@.len(),
            converted <= i && skipped <= i && failed <= i,
            converted == count_of(outcomes@.take(i as int), Outcome::Converted),
            skipped == count_of(outcomes@.take(i as int), Outcome::Skipped),
            failed == count_of(outcomes@.take(i as int), Outcome::Failed),
        decreases outcomes@.len() - i,
    {
        assert(outcomes@.take(i + 1).drop_last() =~= outcomes@.take(i as int));
        match outcomes[i] {
            Outcome::Converted => {
                converted += 1;
            },
            Outcome::Skipped => {
                skipped += 1;
            },
            Outcome::Failed => {
                failed += 1;
            },
            Outcome::Announced => {},
        }
        i += 1;
    }
    assert(outcomes@.take(i as int) =~= outcomes@);
    Tally { converted, skipped, failed }
}

/// The last line of a run.
pub open spec fn done_text(t: Tally) -> Seq<char> {
    "done: "@ + text::decimal(t.converted as nat) + " converted, "@ + text::decimal(
        t.skipped as nat,
    ) + " skipped, "@ + text::decimal(t.failed as nat) + " failed"@
}

/// The last line of a run.
pub fn done_line(t: &Tally) -> (r: String)
    ensures
        r@ == done_text(*t),
{
    let c = text::decimal_string(t.converted as u128);
    let s = text::decimal_string(t.skipped as u128);
    let f = text::decimal_string(t.failed as u128);
    let mut r = text::cat3("done: ", c.as_str(), " converted, ");
    r.append(s.as_str());
    r.append(" skipped, ");
    r.append(f.as_str());
    r.append(" failed");
    r
}

// -------------------------------------------------------------------- laws --

/// Every file is counted once.
pub proof fn law_every_file_is_counted(outcomes: Seq<Outcome>)
    ensures
        count_of(outcomes, Outcome::Converted) + count_of(outcomes, Outcome::Skipped) + count_of(
            outcomes,
            Outcome::Failed,
        ) + count_of(outcomes, Outcome::Announced) == outcomes.len(),
    decreases outcomes.len(),
{
    if outcomes.len() > 0 {
        law_every_file_is_counted(outcomes.drop_last());
    }
}

/// A file whose output exists is left, whatever is asked for.
pub proof fn law_existing_outputs_are_kept(args: Cli)
    ensures
        next_for_file(args, Learnt::Output(true)) == Next::Skip("output exists"@),
{
}

/// A dry run never runs ffmpeg.
pub proof fn law_dry_runs_only_report(args: Cli, e: Learnt)
    requires
        args.dry_run,
    ensures
        next_for_file(args, e) != Next::Encode,
{
}

/// Merge mode converts a file only once subtitle files were found for it.
pub proof fn law_merging_needs_subtitles(args: Cli, e: Learnt)
    requires
        args.merge_subtitles,
        next_for_file(args, e) == Next::Encode || next_for_file(args, e) == Next::Announce,
    ensures
        e matches Learnt::Subtitles(n) && n > 0,
{
}

/// The codec of a source is looked at by Standard runs that re-encode and are
/// not forced, and by no others.
pub proof fn law_who_probes(args: Cli, e: Learnt)
    ensures
        next_for_file(args, e) == Next::ProbeCodec <==> (e == Learnt::Output(false) && args.profile
            == EncodingProfile::Standard && !args.merge_subtitles && !args.force),
{
}

/// A file that is already in the target codec is left unless that is forced.
pub proof fn law_target_codec_is_left(args: Cli, name: Seq<char>)
    requires
        codec::is_target(args.codec, name),
    ensures
        next_for_file(args, Learnt::Codec(name)) is Skip <==> !args.force,
{
}

/// What a file's steps come to, given the answers to what they may ask: whether
/// its output exists, its codec if that can be found out, and the number of its
/// subtitle files.
pub open spec fn verdict(
    args: Cli,
    exists: bool,
    name: Option<Seq<char>>,
    sidecars: nat,
) -> Next {
    let first = next_for_file(args, Learnt::Output(exists));
    let second = if first == Next::ProbeCodec {
        next_for_file(
            args,
            match name {
                Some(c) => Learnt::Codec(c),
                None => Learnt::ProbeFailed,
            },
        )
    } else {
        first
    };
    if second == Next::ListSubtitles {
        next_for_file(args, Learnt::Subtitles(sidecars))
    } else {
        second
    }
}

/// A file's steps come to an end, and nothing is asked twice. A file is
/// converted where its output does not exist, there is something to merge if
/// merging is asked for, and its codec is another than the target's if that
/// matters; in no other case.
pub proof fn law_when_a_file_is_converted(
    args: Cli,
    exists: bool,
    name: Option<Seq<char>>,
    sidecars: nat,
)
    ensures
        verdict(args, exists, name, sidecars) != Next::ProbeCodec,
        verdict(args, exists, name, sidecars) != Next::ListSubtitles,
        verdict(args, exists, name, sidecars) == conversion(args) <==> {
            &&& !exists
            &&& args.merge_subtitles ==> sidecars > 0
            &&& args.profile == EncodingProfile::Standard && !args.merge_subtitles && !args.force
                ==> (name matches Some(c) && !codec::is_target(args.codec, c))
        },
        verdict(args, exists, name, sidecars) == Next::GiveUp <==> {
            &&& !exists
            &&& args.profile == EncodingProfile::Standard && !args.merge_subtitles && !args.force
            &&& name is None
        },
{
}

/// A bundle profile without an output of its own writes next to each source.
pub proof fn law_bundles_default_to_siblings(
    args: Cli,
    single: bool,
    root: Seq<char>,
    root_is_dir: bool,
    root_is_file: bool,
    input: Seq<char>,
    rel: Seq<char>,
)
    requires
        args.profile != EncodingProfile::Standard,
        args.output is None,
        path::file_stem(input) is Some,
    ensures
        path::parent(output_of(args, single, root, root_is_dir, root_is_file, input, rel))
            == path::parent(input),
{
    output::law_web_output_is_sibling(input);
    output::law_hls_output_is_sibling(input);
}

/// What the user asks for reaches the encoder as it is, the quality and the
/// preset included; a quality that is not given is the encoder's default.
pub proof fn law_choices_reach_the_encoder(
    args: Cli,
    subtitles: Seq<SubtitleText>,
    codecs: Seq<Seq<char>>,
    unmappable: Seq<nat>,
)
    ensures
        ({
            let o = settings_for(args, subtitles, codecs, unmappable);
            &&& o.profile == args.profile && o.codec == args.codec && o.backend == args.backend
            &&& o.container == args.container && o.upscale == args.upscale
            &&& o.merge_only == args.merge_subtitles
            &&& args.quality matches Some(q) ==> o.quality == q
            &&& args.quality is None && args.codec == Codec::X265 ==> o.quality == 23
            &&& args.quality is None && args.codec == Codec::Av1 ==> o.quality == if args.backend
                == Backend::Software {
                30nat
            } else {
                28nat
            }
            &&& args.preset matches Some(p) ==> o.preset == Some(p@)
            &&& args.preset is None ==> o.preset is None
            &&& o.subtitles == subtitles
            &&& o.source_subtitle_codecs == codecs
            &&& o.unmappable == unmappable
        }),
{
    backend::law_defaults_suit_the_encoder(args.backend, args.codec);
}

/// A run is refused when it would both merge and encode for the web, when its
/// quality is above 63, when its source is a file that is no video, and when its
/// source does not exist; and in no other case.
pub proof fn law_when_a_run_is_refused(args: Cli, is_file: bool, is_dir: bool)
    ensures
        usage_error(args, is_file, is_dir) is Some <==> {
            ||| args.merge_subtitles && args.profile != EncodingProfile::Standard
            ||| args.quality matches Some(q) && q > 63
            ||| is_file && !(path::extension(args.source@) matches Some(e) && scan::names_video(
                text::lower(e),
            ))
            ||| !is_file && !is_dir
        },
        merge_conflict(args.profile, args.merge_subtitles) is Some <==> args.merge_subtitles
            && args.profile != EncodingProfile::Standard,
{
    scan::law_videos_go_by_their_extension(args.source@);
}

/// A single file goes to the file that is named as its output, and everything
/// else that is re-encoded to its place under the output directory.
pub proof fn law_where_reencoded_files_go(
    args: Cli,
    single: bool,
    root: Seq<char>,
    root_is_dir: bool,
    root_is_file: bool,
    base: Seq<char>,
    input: Seq<char>,
)
    requires
        args.profile == EncodingProfile::Standard,
        path::components(base).len() > 0,
        path::stripped(input, base) is Some,
        path::file_name(path::stripped(input, base)->0) is Some,
    ensures
        ({
            let rel = path::stripped(input, base)->0;
            let out = output_of(args, single, root, root_is_dir, root_is_file, input, rel);
            if single && output::names_file(root, root_is_dir, root_is_file) {
                out == root
            } else {
                path::components(out) == path::components(root) + path::components(
                    rel,
                ).drop_last().push(
                    path::file_stem(rel)->0 + (if args.container == Container::Mkv {
                        ".mkv"@
                    } else {
                        ".mp4"@
                    }),
                )
            }
        }),
{
    let rel = path::stripped(input, base)->0;
    output::law_output_mirrors_tree(root, base, input, args.container);
    reveal_strlit("mkv");
    reveal_strlit("mp4");
    reveal_strlit(".mkv");
    reveal_strlit(".mp4");
    let stem = path::file_stem(rel)->0;
    let ext = crate::container::container_name(args.container);
    crate::container::law_containers_go_by_their_extension(args.container);
    assert(stem + seq!['.'] + ext =~= stem + (if args.container == Container::Mkv {
        ".mkv"@
    } else {
        ".mp4"@
    }));
}

/// Without an output a Standard run writes to the default output of its source.
pub proof fn law_default_root(args: Cli, single: bool)
    ensures
        args.output matches Some(o) ==> shared_root(args, single) == o@,
        args.output is None && args.profile == EncodingProfile::Standard ==> shared_root(
            args,
            single,
        ) == output::default_path(args.source@, single, args.container),
{
}

/// A file more adds one to the count of its own outcome, and to no other.
pub proof fn law_a_file_counts_once(outcomes: Seq<Outcome>, new: Outcome, o: Outcome)
    ensures
        count_of(Seq::empty(), o) == 0,
        count_of(outcomes.push(new), o) == count_of(outcomes, o) + (if new == o {
            1int
        } else {
            0
        }),
{
    assert(outcomes.push(new).drop_last() =~= outcomes);
}

/// The last line of a run names each count for what it is.
pub proof fn law_last_line_names_the_counts(t: Tally)
    ensures
        ({
            let converted = text::decimal(t.converted as nat) + " converted"@;
            let skipped = text::decimal(t.skipped as nat) + " skipped"@;
            let failed = text::decimal(t.failed as nat) + " failed"@;
            done_text(t) == "done: "@ + text::joined(seq![converted, skipped, failed], ", "@)
        }),
{
    let converted = text::decimal(t.converted as nat) + " converted"@;
    let skipped = text::decimal(t.skipped as nat) + " skipped"@;
    let failed = text::decimal(t.failed as nat) + " failed"@;
    let parts = seq![converted, skipped, failed];
    reveal_strlit(" converted, ");
    reveal_strlit(" converted");
    reveal_strlit(" skipped, ");
    reveal_strlit(" skipped");
    reveal_strlit(", ");
    reveal_with_fuel(text::joined, 4);
    assert(parts.drop_last().drop_last() =~= seq![converted]);
    assert(" converted, "@ =~= " converted"@ + ", "@);
    assert(" skipped, "@ =~= " skipped"@ + ", "@);
    assert(text::joined(parts, ", "@) =~= converted + ", "@ + skipped + ", "@ + failed);
    assert(done_text(t) =~= "done: "@ + (converted + ", "@ + skipped + ", "@ + failed));
}

/// Files are numbered from one, against their number in all.
pub proof fn law_files_are_numbered_from_one(index: nat, total: nat)
    ensures
        prefix_text(index, total) == "["@ + text::decimal((index + 1) as nat) + "/"@
            + text::decimal(total) + "]"@,
{
}

/// What is said about a file names the file and where it goes, what is done with
/// it, and whether that is only said.
pub proof fn law_what_is_said_about_a_file(
    args: Cli,
    prefix: Seq<char>,
    reason: Seq<char>,
    rel: Seq<char>,
    output: Seq<char>,
)
    ensures
        text::starts_with(action_text(args, prefix, rel, output), prefix),
        text::ends_with(action_text(args, prefix, rel, output), rel + " -> "@ + output),
        text::starts_with(skip_text(prefix, reason, rel), prefix + " skip ("@ + reason),
        text::ends_with(skip_text(prefix, reason, rel), rel),
        text::ends_with(probe_failed_text(prefix, rel, reason), rel + ": "@ + reason),
{
    let a = action_text(args, prefix, rel, output);
    let tail = rel + " -> "@ + output;
    assert(a.subrange(0, prefix.len() as int) =~= prefix);
    assert(a.subrange(a.len() - tail.len(), a.len() as int) =~= tail);
    let s = skip_text(prefix, reason, rel);
    let head = prefix + " skip ("@ + reason;
    assert(s.subrange(0, head.len() as int) =~= head);
    assert(s.subrange(s.len() - rel.len(), s.len() as int) =~= rel);
    let p = probe_failed_text(prefix, rel, reason);
    let end = rel + ": "@ + reason;
    assert(p.subrange(p.len() - end.len(), p.len() as int) =~= end);
}

/// Which refusal comes first: merging with another profile, then the quality, then
/// the source.
pub proof fn law_which_refusal_comes_first(args: Cli, is_file: bool, is_dir: bool)
    ensures
        args.merge_subtitles && args.profile == EncodingProfile::Web ==> usage_error(
            args,
            is_file,
            is_dir,
        ) == Some(UsageError::WebWithMerge),
        args.merge_subtitles && args.profile == EncodingProfile::Hls ==> usage_error(
            args,
            is_file,
            is_dir,
        ) == Some(UsageError::HlsWithMerge),
        !args.merge_subtitles && (args.quality matches Some(q) && q >= 64) ==> usage_error(
            args,
            is_file,
            is_dir,
        ) == Some(UsageError::QualityTooHigh(args.quality->0)),
        !args.merge_subtitles && args.quality is None && !is_file && !is_dir ==> usage_error(
            args,
            is_file,
            is_dir,
        ) == Some(UsageError::NoSource),
        !args.merge_subtitles && args.quality is None && is_file && !scan::has_video_extension(
            args.source@,
        ) ==> usage_error(args, is_file, is_dir) == Some(UsageError::NotVideo),
{
}

/// The output of several sources must not be an existing file. The user is told of
/// the default output where none is given.
pub proof fn law_when_the_output_is_spoken_of(
    args: Cli,
    single: bool,
    root: Seq<char>,
    exists: bool,
    is_dir: bool,
)
    ensures
        root_refusal_text(args, single, root, exists, is_dir) is Some <==> (args.profile
            == EncodingProfile::Standard && !single && exists && !is_dir),
        default_notice(args, root) is Some <==> (args.profile == EncodingProfile::Standard
            && args.output is None),
        default_notice(args, root) matches Some(t) ==> text::ends_with(t, root),
{
    let t = "--output not given; defaulting to "@ + root;
    assert(t.subrange(t.len() - root.len(), t.len() as int) =~= root);
}

/// Copies for browsers and bundles go, where an output is given, to their place
/// under it, named for their source; a browser copy may be given its own file.
pub proof fn law_where_copies_go(
    args: Cli,
    single: bool,
    root: Seq<char>,
    root_is_dir: bool,
    root_is_file: bool,
    base: Seq<char>,
    input: Seq<char>,
)
    requires
        args.profile != EncodingProfile::Standard,
        args.output is Some,
        path::components(base).len() > 0,
        path::stripped(input, base) is Some,
        path::file_name(path::stripped(input, base)->0) is Some,
    ensures
        ({
            let rel = path::stripped(input, base)->0;
            let out = output_of(args, single, root, root_is_dir, root_is_file, input, rel);
            if args.profile == EncodingProfile::Web && output::names_file(
                root,
                root_is_dir,
                root_is_file,
            ) {
                out == root
            } else {
                path::components(out) == path::components(root) + path::components(
                    rel,
                ).drop_last().push(
                    path::file_stem(rel)->0 + (if args.profile == EncodingProfile::Web {
                        ".web.mp4"@
                    } else {
                        ".hls"@
                    }),
                )
            }
        }),
{
    let rel = path::stripped(input, base)->0;
    output::law_bundles_mirror_tree(root, base, input, output::web_name(rel));
    output::law_bundles_mirror_tree(root, base, input, output::hls_name(rel));
}

/// A directory that is given for copies is validated, and so is the one that
/// re-encoded files share; a file that is given for the one output is not.
pub proof fn law_which_outputs_are_directories(
    args: Cli,
    single: bool,
    root: Seq<char>,
    root_is_dir: bool,
    root_is_file: bool,
)
    ensures
        ({
            let is_file = output::names_file(root, root_is_dir, root_is_file);
            let shared = has_shared_dir(args, single, root, root_is_dir, root_is_file);
            &&& args.profile == EncodingProfile::Hls ==> shared == (args.output is Some)
            &&& args.profile == EncodingProfile::Web ==> shared == (args.output is Some && !is_file)
            &&& args.profile == EncodingProfile::Standard ==> shared == (!single || !is_file)
        }),
{
}

/// A file's path below its source, put under the source again, leads to the file.
pub proof fn law_relative_paths_lead_back(input: Seq<char>, base: Seq<char>)
    requires
        path::components(base).len() > 0,
        path::stripped(input, base) is Some,
    ensures
        path::components(input) == path::components(base) + path::components(
            relative_to(input, base),
        ),
        source_root(base, false) == base,
        path::parent(input) matches Some(d) ==> source_root(input, true) == d,
{
    path::lemma_stripped(input, base);
}

/// Why a file is left, in words: its output exists, it is in the target codec, or
/// there is nothing to merge.
pub proof fn law_reasons_in_words(args: Cli, name: Seq<char>)
    ensures
        next_for_file(args, Learnt::Output(true)) == Next::Skip("output exists"@),
        !args.force && codec::is_target(args.codec, name) ==> next_for_file(
            args,
            Learnt::Codec(name),
        ) == Next::Skip(
            if args.codec == Codec::X265 {
                "already x265"@
            } else {
                "already av1"@
            },
        ),
        args.merge_subtitles ==> next_for_file(args, Learnt::Subtitles(0)) == Next::Skip(
            "no sidecar subtitles to merge"@,
        ),
        next_for_file(args, Learnt::ProbeFailed) == Next::GiveUp,
{
    reveal_strlit("already ");
    reveal_strlit("x265");
    reveal_strlit("av1");
    reveal_strlit("already x265");
    reveal_strlit("already av1");
    assert("already "@ + "x265"@ =~= "already x265"@);
    assert("already "@ + "av1"@ =~= "already av1"@);
}

} // verus!
