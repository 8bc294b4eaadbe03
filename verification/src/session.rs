//! An interactive session: what the user has chosen, the list of files, and
//! what the scan and the encodes report.

use vstd::prelude::*;
use crate::backend;
use crate::backend::Backend;
use crate::cli;
use crate::codec;
use crate::codec::Codec;
use crate::container::Container;
use crate::convert::{EncodeOptions, Settings, SubtitleInput, SubtitleText};
use crate::journal;
use crate::journal::{Journal, Severity};
use crate::listing;
use crate::listing::{Decision, FileEntry, FilterState, MetaState, SortColumn, Status};
use crate::metadata::FileMetadata;
use crate::order;
use crate::output;
use crate::path;
use crate::probe::VideoInfo;
use crate::profile::EncodingProfile;
use crate::progress::{Position, ProgressInfo};
use crate::scan;
use crate::scan::SidecarSubtitle;
use crate::text;
use crate::upscale::Upscale;

verus! {

/// Where converted files go.
///
/// `Single`: one output directory (or, for a single-file source, one explicit
/// output filepath) that mirrors the source tree underneath it.
///
/// `PerSource`: each source produces its output next to itself: a file source
/// becomes `<stem>-converted.<ext>` in the same dir, a directory source
/// becomes a sibling `<dirname>-converted/` mirror. Used when the user picks
/// multiple sources where a single shared root would force collisions.
#[derive(Debug)]
pub enum OutputDest {
    Single(String),
    PerSource,
}

/// What a session knows.
#[derive(Debug)]
pub struct Session {
    pub sources: Vec<String>,
    pub output: Option<OutputDest>,
    pub profile: EncodingProfile,
    pub codec: Codec,
    pub backend: Backend,
    pub container: Container,
    pub quality: u8,
    pub preset: String,
    pub upscale: Upscale,
    pub force: bool,
    pub recurse: bool,
    pub embed_subtitles: bool,
    pub merge_subtitles: bool,
    pub show_advanced: bool,
    pub files: Vec<FileEntry>,
    /// Whether a scan is running.
    pub scanning: bool,
    /// Whether encodes are running.
    pub encoding: bool,
    pub journal: Journal,
    pub startup_checked: bool,
    pub search_query: String,
    pub filter_state: FilterState,
    pub sort_column: Option<SortColumn>,
    pub sort_ascending: bool,
    pub selected: Option<usize>,
}

/// The preset that a backend has by default; empty where it has none.
pub open spec fn preset_text(b: Backend, c: Codec) -> Seq<char> {
    match backend::default_preset(b, c) {
        Some(p) => p,
        None => ""@,
    }
}

// ----------------------------------------------------------------- choices --

/// Where the output goes by default: next to each of several sources, or to
/// the default output of a single one.
pub open spec fn is_default_dest(
    dest: OutputDest,
    sources: Seq<Seq<char>>,
    first_is_file: bool,
    c: Container,
) -> bool {
    if sources.len() > 1 {
        dest is PerSource
    } else {
        dest matches OutputDest::Single(p) && p@ == output::default_path(
            sources[0],
            first_is_file,
            c,
        )
    }
}

/// Whether two destinations are the same.
pub open spec fn same_dest(a: OutputDest, b: OutputDest) -> bool {
    match (a, b) {
        (OutputDest::Single(p), OutputDest::Single(q)) => p@ == q@,
        (OutputDest::PerSource, OutputDest::PerSource) => true,
        _ => false,
    }
}

/// Where the output goes, in words.
pub open spec fn dest_text(dest: OutputDest) -> Seq<char> {
    match dest {
        OutputDest::Single(p) => p@,
        OutputDest::PerSource => "(next to each source)"@,
    }
}

impl OutputDest {
    /// Where the output goes, in words.
    pub fn display_label(&self) -> (r: String)
        ensures
            r@ == dest_text(*self),
    {
        match self {
            OutputDest::Single(p) => p.as_str().to_owned(),
            OutputDest::PerSource => "(next to each source)".to_owned(),
        }
    }

    /// A copy.
    pub fn copied(&self) -> (r: Self)
        ensures
            same_dest(*self, r),
    {
        match self {
            OutputDest::Single(p) => OutputDest::Single(p.as_str().to_owned()),
            OutputDest::PerSource => OutputDest::PerSource,
        }
    }
}

/// The sources that were chosen, in words.
pub open spec fn sources_text(sources: Seq<Seq<char>>, first_is_file: bool) -> Seq<char> {
    if sources.len() == 0 {
        "(none)"@
    } else if sources.len() == 1 {
        sources[0] + (if first_is_file {
            " [file]"@
        } else {
            " [folder]"@
        })
    } else {
        text::decimal(sources.len()) + " items selected"@
    }
}

/// A text without the dashes at its beginning.
pub open spec fn without_dashes(s: Seq<char>) -> Seq<char>
    decreases s.len(),
{
    if s.len() > 0 && s[0] == '-' {
        without_dashes(s.skip(1))
    } else {
        s
    }
}

/// The name of a backend's quality value, with a colon.
pub fn quality_label(b: Backend) -> (r: String)
    ensures
        r@ == without_dashes(backend::quality_flag(b)) + ":"@,
{
    let flag = b.config(Codec::X265).quality_flag;
    let chars = text::chars_of(flag);
    let mut i: usize = 0;
    assert(chars@.skip(0) =~= chars@);
    while i < chars.len() && chars[i] == '-'
        invariant
            i <= chars@.len(),
            without_dashes(chars@) == without_dashes(chars@.skip(i as int)),
        decreases chars@.len() - i,
    {
        assert(chars@.skip(i as int).skip(1) =~= chars@.skip(i + 1));
        i += 1;
    }
    let name = text::string_of(&chars, i, chars.len());
    assert(name@ =~= chars@.skip(i as int));
    text::cat(name.as_str(), ":")
}

/// Whether a backend has presets to choose from.
pub fn takes_preset(b: Backend, c: Codec) -> (r: bool)
    ensures
        r == (backend::default_preset(b, c) is Some),
{
    b.config(c).default_preset.is_some()
}

impl Session {
    /// A session in which nothing has been chosen yet.
    pub fn new() -> (r: Self)
        ensures
            r.sources@.len() == 0,
            r.output is None,
            r.profile == EncodingProfile::Standard,
            r.codec == Codec::X265,
            r.backend == Backend::Software,
            r.container == Container::Mkv,
            r.quality == backend::default_quality(Backend::Software, Codec::X265),
            r.preset@ == preset_text(Backend::Software, Codec::X265),
            r.upscale == Upscale::Native,
            !r.force,
            r.recurse,
            !r.embed_subtitles,
            !r.merge_subtitles,
            !r.show_advanced,
            r.files@.len() == 0,
            !r.scanning,
            !r.encoding,
            r.journal@ == (journal::Told {
                log: Seq::empty(),
                unprinted: Seq::empty(),
                note: None,
            }),
            !r.startup_checked,
            r.search_query@ == ""@,
            r.filter_state == FilterState::All,
            r.sort_column is None,
            r.sort_ascending,
            r.selected is None,
    {
        let codec = Codec::X265;
        let backend = Backend::Software;
        Session {
            sources: Vec::new(),
            output: None,
            profile: EncodingProfile::Standard,
            codec,
            backend,
            container: Container::Mkv,
            quality: backend.config(codec).default_quality,
            preset: preset_for(backend, codec),
            upscale: Upscale::Native,
            force: false,
            recurse: true,
            embed_subtitles: false,
            merge_subtitles: false,
            show_advanced: false,
            files: Vec::new(),
            scanning: false,
            encoding: false,
            journal: Journal::new(),
            startup_checked: false,
            search_query: "".to_owned(),
            filter_state: FilterState::All,
            sort_column: None,
            sort_ascending: true,
            selected: None,
        }
    }

    /// Takes quality and preset from the backend's defaults for the codec.
    pub fn reset_to_backend_defaults(&mut self)
        ensures
            *final(self) == (Session {
                quality: backend::default_quality(old(self).backend, old(self).codec),
                preset: final(self).preset,
                ..*old(self)
            }),
            final(self).preset@ == preset_text(old(self).backend, old(self).codec),
    {
        self.quality = self.backend.config(self.codec).default_quality;
        self.preset = preset_for(self.backend, self.codec);
    }

    /// Takes new sources, and pre-fills the output with a sensible default if
    /// the user hasn't picked one yet. An existing choice is preserved.
    /// `first_is_file` is whether the first source is an existing file.
    pub fn set_sources(&mut self, sources: Vec<String>, first_is_file: bool)
        ensures
            *final(self) == (Session { sources, output: final(self).output, ..*old(self) }),
            if old(self).output is None && sources@.len() > 0 {
                final(self).output matches Some(d) && is_default_dest(
                    d,
                    text::texts(sources@),
                    first_is_file,
                    old(self).container,
                )
            } else {
                final(self).output == old(self).output
            },
    {
        if self.output.is_none() && sources.len() > 0 {
            let dest = if sources.len() > 1 {
                OutputDest::PerSource
            } else {
                OutputDest::Single(
                    output::default_output(sources[0].as_str(), first_is_file, self.container),
                )
            };
            self.output = Some(dest);
        }
        self.sources = sources;
    }

    /// The sources that were chosen, in words.
    pub fn sources_label(&self, first_is_file: bool) -> (r: String)
        ensures
            r@ == sources_text(text::texts(self.sources@), first_is_file),
    {
        let n: usize = self.sources.len();
        if n == 0 {
            "(none)".to_owned()
        } else if n == 1 {
            let kind = if first_is_file {
                " [file]"
            } else {
                " [folder]"
            };
            text::cat(self.sources[0].as_str(), kind)
        } else {
            let count = text::decimal_string(n as u128);
            text::cat(count.as_str(), " items selected")
        }
    }

    /// Where the output goes, in words.
    pub fn output_label(&self) -> (r: String)
        ensures
            r@ == match self.output {
                Some(d) => dest_text(d),
                None => "(none)"@,
            },
    {
        match &self.output {
            Some(d) => d.display_label(),
            None => "(none)".to_owned(),
        }
    }

    /// Where a dialog for a source directory begins.
    pub fn source_start(&self) -> (r: Option<String>)
        ensures
            text::opt_text(r) == if self.sources@.len() > 0 {
                Some(self.sources@[0]@)
            } else {
                None
            },
    {
        if self.sources.len() > 0 {
            Some(self.sources[0].as_str().to_owned())
        } else {
            None
        }
    }

    /// Where a dialog for source files begins: a file's directory.
    pub fn source_file_start(&self, first_is_file: bool) -> (r: Option<String>)
        ensures
            text::opt_text(r) == if self.sources@.len() == 0 {
                None
            } else if first_is_file {
                path::parent(self.sources@[0]@)
            } else {
                Some(self.sources@[0]@)
            },
    {
        if self.sources.len() == 0 {
            None
        } else if first_is_file {
            path::parent_of(self.sources[0].as_str())
        } else {
            Some(self.sources[0].as_str().to_owned())
        }
    }

    /// Where a dialog for the output directory begins.
    pub fn output_start(&self) -> (r: Option<String>)
        ensures
            text::opt_text(r) == match self.output {
                Some(OutputDest::Single(p)) => Some(p@),
                _ => None,
            },
    {
        match &self.output {
            Some(OutputDest::Single(p)) => Some(p.as_str().to_owned()),
            _ => None,
        }
    }

    /// Sorts by a column; the column that is sorted by already turns round.
    pub fn click_column(&mut self, column: SortColumn)
        ensures
            *final(self) == (Session {
                sort_column: Some(column),
                sort_ascending: if old(self).sort_column == Some(column) {
                    !old(self).sort_ascending
                } else {
                    true
                },
                ..*old(self)
            }),
    {
        let same = match self.sort_column {
            Some(c) => c == column,
            None => false,
        };
        if same {
            self.sort_ascending = !self.sort_ascending;
        } else {
            self.sort_column = Some(column);
            self.sort_ascending = true;
        }
    }
}

fn preset_for(b: Backend, c: Codec) -> (r: String)
    ensures
        r@ == preset_text(b, c),
{
    match b.config(c).default_preset {
        Some(p) => p.to_owned(),
        None => "".to_owned(),
    }
}

/// The folder to be shown for a path: itself, or the one it lies in.
pub open spec fn folder_of(p: Seq<char>, is_dir: bool) -> Seq<char> {
    if is_dir {
        p
    } else {
        match path::parent(p) {
            Some(d) => d,
            None => p,
        }
    }
}

/// The folder to be shown for a path.
pub fn folder_to_open(p: &str, is_dir: bool) -> (r: String)
    ensures
        r@ == folder_of(p@, is_dir),
{
    if is_dir {
        return p.to_owned();
    }
    match path::parent_of(p) {
        Some(d) => d,
        None => p.to_owned(),
    }
}

// -------------------------------------------------------------------- scan --

/// What a source is.
#[derive(Copy, Clone, Debug, PartialEq, Eq, Structural)]
pub enum SourceKind {
    File,
    Directory,
    Missing,
}

/// What is wrong with a source, if anything.
pub open spec fn source_problem(p: Seq<char>, kind: SourceKind) -> Option<Seq<char>> {
    match kind {
        SourceKind::File => if scan::has_video_extension(p) {
            None
        } else {
            Some("not a recognised video: "@ + p)
        },
        SourceKind::Directory => None,
        SourceKind::Missing => Some("does not exist: "@ + p),
    }
}

/// What is wrong with the first `k` sources.
pub open spec fn source_problems(sources: Seq<Seq<char>>, kinds: Seq<SourceKind>, k: nat) -> Seq<
    Seq<char>,
>
    decreases k,
{
    if k == 0 {
        Seq::empty()
    } else {
        source_problems(sources, kinds, (k - 1) as nat) + text::maybe(
            source_problem(sources[k - 1], kinds[k - 1]),
        )
    }
}

/// Why a scan cannot begin, if it cannot.
pub open spec fn scan_refusal(s: Session, kinds: Seq<SourceKind>) -> Option<Seq<char>> {
    let problems = source_problems(text::texts(s.sources@), kinds, s.sources@.len());
    if s.sources@.len() == 0 {
        Some("Pick a source folder or file before scanning."@)
    } else if s.output is None {
        Some("Pick an output directory before scanning."@)
    } else if cli::merge_conflict(s.profile, s.merge_subtitles) is Some {
        Some(
            cli::usage_error_text(cli::merge_conflict(s.profile, s.merge_subtitles)->0, ""@),
        )
    } else if problems.len() > 0 {
        Some("Source problems:\n"@ + text::joined(problems, "\n"@))
    } else {
        None
    }
}

/// Whether the whole output is one file: a single file source may be given an
/// output path that names a file. An HLS bundle is a directory, never a file.
pub open spec fn output_is_one_file(
    s: Session,
    first_is_file: bool,
    root_is_dir: bool,
    root_is_file: bool,
) -> bool {
    &&& s.profile != EncodingProfile::Hls
    &&& s.sources@.len() == 1
    &&& first_is_file
    &&& s.output matches Some(OutputDest::Single(root)) && output::names_file(
        root@,
        root_is_dir,
        root_is_file,
    )
}

/// Where the output of a file of a source goes: under the shared root, or next
/// to the source. `source` is the source and `rel` the file's path below it.
pub open spec fn planned_path(
    profile: EncodingProfile,
    dest: OutputDest,
    c: Container,
    source: Seq<char>,
    source_is_file: bool,
    abs: Seq<char>,
    rel: Seq<char>,
) -> Seq<char> {
    match (profile, dest) {
        (EncodingProfile::Standard, OutputDest::PerSource) => if source_is_file {
            output::default_path(abs, true, c)
        } else {
            output::encoded_path(output::default_path(source, false, c), rel, c)
        },
        (EncodingProfile::Standard, OutputDest::Single(root)) => output::encoded_path(root@, rel, c),
        (EncodingProfile::Web, OutputDest::PerSource) => output::beside(abs, output::web_name(abs)),
        (EncodingProfile::Web, OutputDest::Single(root)) => output::mirrored(
            root@,
            rel,
            output::web_name(rel),
        ),
        (EncodingProfile::Hls, OutputDest::PerSource) => output::beside(abs, output::hls_name(abs)),
        (EncodingProfile::Hls, OutputDest::Single(root)) => output::mirrored(
            root@,
            rel,
            output::hls_name(rel),
        ),
    }
}

/// What is to be done with a file whose output does not exist: merging needs
/// something to merge, and a Standard re-encode another codec, unless forced.
pub open spec fn decision_for(
    profile: EncodingProfile,
    merge: bool,
    force: bool,
    target: Codec,
    source_codec: Seq<char>,
    sidecars: nat,
) -> Decision {
    if profile != EncodingProfile::Standard {
        Decision::Encode
    } else if merge {
        if sidecars == 0 {
            Decision::SkipNoSubtitles
        } else {
            Decision::Encode
        }
    } else if force || !codec::is_target(target, source_codec) {
        Decision::Encode
    } else {
        Decision::SkipAlreadyTarget
    }
}

/// How a scan goes about its files.
#[derive(Debug)]
pub struct ScanPlan {
    pub profile: EncodingProfile,
    pub codec: Codec,
    pub container: Container,
    pub output: OutputDest,
    /// Whether the whole output is one file.
    pub to_one_file: bool,
    pub force: bool,
    pub recurse: bool,
    pub merge_subtitles: bool,
}

/// Whether a plan is that of a session, by what is known of its first source and of
/// its output path.
pub open spec fn is_plan_of(
    p: ScanPlan,
    s: Session,
    first_is_file: bool,
    root_is_dir: bool,
    root_is_file: bool,
) -> bool {
    &&& p.profile == s.profile
    &&& p.codec == s.codec
    &&& p.container == s.container
    &&& p.force == s.force
    &&& p.recurse == s.recurse
    &&& p.merge_subtitles == s.merge_subtitles
    &&& s.output matches Some(dest) && same_dest(dest, p.output)
    &&& p.to_one_file == output_is_one_file(s, first_is_file, root_is_dir, root_is_file)
}

/// Where the output of a file goes by a plan: to the one file that is asked
/// for, or where its profile and destination put it.
pub open spec fn output_by_plan(
    plan: ScanPlan,
    source: Seq<char>,
    source_is_file: bool,
    abs: Seq<char>,
    rel: Seq<char>,
) -> Seq<char> {
    match (plan.to_one_file, plan.output) {
        (true, OutputDest::Single(root)) => root@,
        _ => planned_path(
            plan.profile,
            plan.output,
            plan.container,
            source,
            source_is_file,
            abs,
            rel,
        ),
    }
}

/// What a scan reports.
#[derive(Debug)]
pub enum ScanMsg {
    /// A file for the list.
    Discovered(FileEntry),
    /// Something went wrong with a file.
    Error(String),
    /// The scan has ended, having met this many files.
    Done(usize),
}

/// What is to be told once the reports at hand are read.
#[derive(Debug)]
pub struct Deferred {
    pub lines: Vec<String>,
    pub warnings: Vec<String>,
}

impl Deferred {
    /// Nothing to be told.
    pub fn new() -> (r: Self)
        ensures
            r.lines@.len() == 0,
            r.warnings@.len() == 0,
    {
        Deferred { lines: Vec::new(), warnings: Vec::new() }
    }
}

/// What is told about a scan that has ended.
pub open spec fn scan_done_text(n: nat) -> Seq<char> {
    "scan: complete, "@ + text::decimal(n) + " file(s)"@
}

/// Whether an entry is that of a file whose output exists: nothing is known but
/// its paths.
pub open spec fn is_existing_entry(
    e: FileEntry,
    abs: Seq<char>,
    rel: Seq<char>,
    output: Seq<char>,
) -> bool {
    &&& e.abs@ == abs
    &&& e.rel@ == rel
    &&& e.output@ == output
    &&& e.source_codec is None
    &&& e.width is None
    &&& e.height is None
    &&& e.bit_rate is None
    &&& e.duration is None
    &&& e.source_subtitle_codecs@.len() == 0
    &&& e.unmappable_stream_indices@.len() == 0
    &&& e.discovered_subtitles@.len() == 0
    &&& e.decision == Decision::SkipOutputExists
    &&& e.status is Pending
    &&& e.metadata is NotLoaded
}

/// Whether an entry is that of a file whose output does not exist, by what it
/// holds. The subtitle files that were found for it are kept in merge mode
/// alone.
pub open spec fn is_probed_entry(
    plan: ScanPlan,
    e: FileEntry,
    abs: Seq<char>,
    rel: Seq<char>,
    output: Seq<char>,
    info: VideoInfo,
    sidecars: Seq<SidecarSubtitle>,
) -> bool {
    &&& e.abs@ == abs
    &&& e.rel@ == rel
    &&& e.output@ == output
    &&& e.source_codec == Some(info.codec)
    &&& e.width == info.width
    &&& e.height == info.height
    &&& e.bit_rate == info.bit_rate
    &&& e.duration == info.duration
    &&& e.source_subtitle_codecs == info.subtitle_codecs
    &&& e.unmappable_stream_indices == info.unmappable_stream_indices
    &&& e.discovered_subtitles@ == if plan.merge_subtitles {
        sidecars
    } else {
        Seq::empty()
    }
    &&& e.decision == decision_for(
        plan.profile,
        plan.merge_subtitles,
        plan.force,
        plan.codec,
        info.codec@,
        sidecars.len(),
    )
    &&& e.status is Pending
    &&& e.metadata is NotLoaded
}

impl ScanPlan {
    /// Where the output of a file goes. `source_is_file` is whether the source
    /// that it was found under exists as a file.
    pub fn planned_output(&self, source: &str, source_is_file: bool, abs: &str, rel: &str) -> (r:
        String)
        ensures
            r@ == output_by_plan(*self, source@, source_is_file, abs@, rel@),
    {
        match &self.output {
            OutputDest::PerSource => match self.profile {
                EncodingProfile::Standard => if source_is_file {
                    output::default_output(abs, true, self.container)
                } else {
                    let mirror = output::default_output(source, false, self.container);
                    output::output_path(mirror.as_str(), rel, self.container)
                },
                EncodingProfile::Web => output::web_output_path(abs),
                EncodingProfile::Hls => output::hls_output_path(abs),
            },
            OutputDest::Single(root) => if self.to_one_file {
                root.as_str().to_owned()
            } else {
                match self.profile {
                    EncodingProfile::Standard => output::output_path(
                        root.as_str(),
                        rel,
                        self.container,
                    ),
                    EncodingProfile::Web => output::web_output_under_root(root.as_str(), rel),
                    EncodingProfile::Hls => output::hls_output_under_root(root.as_str(), rel),
                }
            },
        }
    }

    /// The entry of a file whose output exists; nothing else is looked at.
    pub fn existing_entry(&self, abs: &str, rel: &str, output: &str) -> (r: FileEntry)
        ensures
            is_existing_entry(r, abs@, rel@, output@),
    {
        FileEntry {
            abs: abs.to_owned(),
            rel: rel.to_owned(),
            output: output.to_owned(),
            source_codec: None,
            width: None,
            height: None,
            bit_rate: None,
            duration: None,
            source_subtitle_codecs: Vec::new(),
            unmappable_stream_indices: Vec::new(),
            discovered_subtitles: Vec::new(),
            decision: Decision::SkipOutputExists,
            status: Status::Pending,
            metadata: MetaState::NotLoaded,
        }
    }

    /// The entry of a file whose output does not exist. The subtitle files that
    /// were found for it are kept in merge mode alone.
    pub fn probed_entry(
        &self,
        abs: &str,
        rel: &str,
        output: &str,
        info: VideoInfo,
        sidecars: Vec<SidecarSubtitle>,
    ) -> (r: FileEntry)
        ensures
            is_probed_entry(*self, r, abs@, rel@, output@, info, sidecars@),
    {
        let decision = if self.profile != EncodingProfile::Standard {
            Decision::Encode
        } else if self.merge_subtitles {
            if sidecars.len() == 0 {
                Decision::SkipNoSubtitles
            } else {
                Decision::Encode
            }
        } else if self.force || !self.codec.matches_source(info.codec.as_str()) {
            Decision::Encode
        } else {
            Decision::SkipAlreadyTarget
        };
        let kept = if self.merge_subtitles {
            sidecars
        } else {
            Vec::new()
        };
        FileEntry {
            abs: abs.to_owned(),
            rel: rel.to_owned(),
            output: output.to_owned(),
            source_codec: Some(info.codec),
            width: info.width,
            height: info.height,
            bit_rate: info.bit_rate,
            duration: info.duration,
            source_subtitle_codecs: info.subtitle_codecs,
            unmappable_stream_indices: info.unmappable_stream_indices,
            discovered_subtitles: kept,
            decision,
            status: Status::Pending,
            metadata: MetaState::NotLoaded,
        }
    }
}

/// What is told about a file that could not be probed.
pub open spec fn probe_failure_text(rel: Seq<char>, cause: Seq<char>) -> Seq<char> {
    "probe failed for "@ + rel + ": "@ + cause
}

/// What is told about a file that could not be probed.
pub fn probe_failure(rel: &str, cause: &str) -> (r: String)
    ensures
        r@ == probe_failure_text(rel@, cause@),
{
    let mut r = text::cat3("probe failed for ", rel, ": ");
    r.append(cause);
    r
}

/// What is told about an output directory that cannot be used.
pub open spec fn unusable_text(cause: Seq<char>) -> Seq<char> {
    "Output directory is not usable:\n"@ + cause
}

/// What is told about a program that is missing.
pub open spec fn missing_text(program: Seq<char>) -> Seq<char> {
    "`"@ + program + "` not found on PATH. Install ffmpeg before running encodes."@
}

impl Session {
    /// Tells about the programs that are missing, the first time that it is
    /// called.
    pub fn start_up(&mut self, missing: &Vec<String>)
        ensures
            *final(self) == (Session {
                startup_checked: true,
                journal: final(self).journal,
                ..*old(self)
            }),
            final(self).journal@ == if old(self).startup_checked {
                old(self).journal@
            } else {
                journal::notified_all(
                    old(self).journal@,
                    Severity::Error,
                    text::texts(missing@).map_values(|p: Seq<char>| missing_text(p)),
                    missing@.len(),
                )
            },
    {
        if self.startup_checked {
            return;
        }
        self.startup_checked = true;
        let ghost told = text::texts(missing@).map_values(|p: Seq<char>| missing_text(p));
        let ghost start = self.journal@;
        let mut i: usize = 0;
        while i < missing.len()
            invariant
                i <= missing@.len(),
                told == text::texts(missing@).map_values(|p: Seq<char>| missing_text(p)),
                self.journal@ == journal::notified_all(start, Severity::Error, told, i as nat),
                *self == (Session {
                    startup_checked: true,
                    journal: self.journal,
                    ..*old(self)
                }),
            decreases missing@.len() - i,
        {
            let line = text::cat3(
                "`",
                missing[i].as_str(),
                "` not found on PATH. Install ffmpeg before running encodes.",
            );
            assert(told[i as int] == missing_text(missing@[i as int]@));
            self.journal.notify_error(line.as_str());
            i += 1;
        }
    }

    /// Whether a scan can begin; where it cannot, the user is told why.
    pub fn ready_to_scan(&mut self, kinds: &Vec<SourceKind>) -> (r: bool)
        requires
            kinds@.len() == old(self).sources@.len(),
        ensures
            *final(self) == (Session { journal: final(self).journal, ..*old(self) }),
            match scan_refusal(*old(self), kinds@) {
                Some(t) => !r && final(self).journal@ == journal::notified(
                    old(self).journal@,
                    Severity::Error,
                    t,
                ),
                None => r && final(self).journal == old(self).journal,
            },
    {
        if self.sources.len() == 0 {
            self.journal.notify_error("Pick a source folder or file before scanning.");
            return false;
        }
        if self.output.is_none() {
            self.journal.notify_error("Pick an output directory before scanning.");
            return false;
        }
        match cli::check_merge(self.profile, self.merge_subtitles) {
            Some(e) => {
                let line = e.message("");
                self.journal.notify_error(line.as_str());
                return false;
            },
            None => {},
        }
        let ghost sources = text::texts(self.sources@);
        let mut problems: Vec<String> = Vec::new();
        let mut i: usize = 0;
        assert(text::texts(problems@) =~= source_problems(sources, kinds@, 0));
        while i < self.sources.len()
            invariant
                i <= self.sources@.len() == kinds@.len(),
                sources == text::texts(self.sources@),
                text::texts(problems@) == source_problems(sources, kinds@, i as nat),
            decreases self.sources@.len() - i,
        {
            let p = self.sources[i].as_str();
            assert(sources[i as int] == self.sources@[i as int]@);
            let problem = match kinds[i] {
                SourceKind::File => {
                    if scan::is_video(p) {
                        None
                    } else {
                        Some(text::cat("not a recognised video: ", p))
                    }
                },
                SourceKind::Directory => None,
                SourceKind::Missing => Some(text::cat("does not exist: ", p)),
            };
            text::push_maybe(&mut problems, problem);
            i += 1;
        }
        assert(text::texts(problems@).len() == problems@.len());
        if problems.len() > 0 {
            let list = text::join(&problems, "\n");
            let line = text::cat("Source problems:\n", list.as_str());
            self.journal.notify_error(line.as_str());
            return false;
        }
        true
    }

    /// Tells that the output directory cannot be used.
    pub fn refuse_output(&mut self, cause: &str)
        ensures
            *final(self) == (Session { journal: final(self).journal, ..*old(self) }),
            final(self).journal@ == journal::notified(
                old(self).journal@,
                Severity::Error,
                unusable_text(cause@),
            ),
    {
        let line = text::cat("Output directory is not usable:\n", cause);
        self.journal.notify_error(line.as_str());
    }

    /// Whether the output is one file, by what is known of the first source and
    /// of the output path.
    fn writes_one_file(&self, first_is_file: bool, root_is_dir: bool, root_is_file: bool) -> (r: bool)
        ensures
            r == output_is_one_file(*self, first_is_file, root_is_dir, root_is_file),
    {
        match &self.output {
            Some(OutputDest::Single(root)) => self.profile != EncodingProfile::Hls
                && self.sources.len() == 1 && first_is_file && output::output_is_filepath(
                root.as_str(),
                root_is_dir,
                root_is_file,
            ),
            _ => false,
        }
    }

    /// Whether the output is a shared directory that is to be validated. What
    /// goes next to its source has none, and neither has a single file.
    pub fn checks_output_dir(
        &self,
        first_is_file: bool,
        root_is_dir: bool,
        root_is_file: bool,
    ) -> (r: bool)
        ensures
            r == (self.output matches Some(OutputDest::Single(_)) && !output_is_one_file(
                *self,
                first_is_file,
                root_is_dir,
                root_is_file,
            )),
    {
        matches!(self.output, Some(OutputDest::Single(_))) && !self.writes_one_file(
            first_is_file,
            root_is_dir,
            root_is_file,
        )
    }

    /// Empties the list for a scan, and returns how to go about it; none where
    /// no output was chosen. `first_is_file` is whether the first source exists
    /// as a file; the other two say what exists at the output path.
    pub fn begin_scan(
        &mut self,
        first_is_file: bool,
        root_is_dir: bool,
        root_is_file: bool,
    ) -> (r: Option<ScanPlan>)
        ensures
            match old(self).output {
                Some(dest) => {
                    &&& *final(self) == (Session {
                        files: final(self).files,
                        selected: None,
                        scanning: true,
                        journal: final(self).journal,
                        ..*old(self)
                    })
                    &&& final(self).files@.len() == 0
                    &&& final(self).journal@ == journal::logged(
                        old(self).journal@,
                        "scan: started"@,
                    )
                    &&& r matches Some(p) && p.profile == old(self).profile && p.codec == old(
                        self,
                    ).codec && p.container == old(self).container && p.force == old(self).force
                        && p.recurse == old(self).recurse && p.merge_subtitles == old(
                        self,
                    ).merge_subtitles && same_dest(dest, p.output) && p.to_one_file
                        == output_is_one_file(
                        *old(self),
                        first_is_file,
                        root_is_dir,
                        root_is_file,
                    )
                },
                None => r is None && *final(self) == *old(self),
            },
            r matches Some(p) ==> is_plan_of(
                p,
                *old(self),
                first_is_file,
                root_is_dir,
                root_is_file,
            ),
    {
        let output = match &self.output {
            Some(d) => d.copied(),
            None => {
                return None;
            },
        };
        let to_one_file = self.writes_one_file(first_is_file, root_is_dir, root_is_file);
        self.files = Vec::new();
        self.selected = None;
        self.scanning = true;
        self.journal.log("scan: started");
        Some(
            ScanPlan {
                profile: self.profile,
                codec: self.codec,
                container: self.container,
                output,
                to_one_file,
                force: self.force,
                recurse: self.recurse,
                merge_subtitles: self.merge_subtitles,
            },
        )
    }

    /// Logs that a scan is to be canceled, where one is running.
    pub fn cancel_scan(&mut self) -> (r: bool)
        ensures
            r == old(self).scanning,
            *final(self) == (Session { journal: final(self).journal, ..*old(self) }),
            final(self).journal@ == if old(self).scanning {
                journal::logged(old(self).journal@, "scan: cancel requested"@)
            } else {
                old(self).journal@
            },
    {
        if self.scanning {
            self.journal.log("scan: cancel requested");
            true
        } else {
            false
        }
    }

    /// Reads one report of a scan.
    pub fn take_scan(&mut self, msg: ScanMsg, deferred: &mut Deferred)
        ensures
            match msg {
                ScanMsg::Discovered(entry) => {
                    &&& *final(self) == (Session { files: final(self).files, ..*old(self) })
                    &&& final(self).files@ == old(self).files@.push(entry)
                    &&& *final(deferred) == *old(deferred)
                },
                ScanMsg::Error(m) => {
                    &&& *final(self) == *old(self)
                    &&& final(deferred).lines == old(deferred).lines
                    &&& text::texts(final(deferred).warnings@) == text::texts(
                        old(deferred).warnings@,
                    ).push(m@)
                },
                ScanMsg::Done(n) => {
                    &&& *final(self) == (Session { scanning: false, ..*old(self) })
                    &&& text::texts(final(deferred).lines@) == text::texts(
                        old(deferred).lines@,
                    ).push(scan_done_text(n as nat))
                    &&& final(deferred).warnings == old(deferred).warnings
                },
            },
    {
        match msg {
            ScanMsg::Discovered(entry) => {
                self.files.push(entry);
            },
            ScanMsg::Error(m) => {
                text::push_string(&mut deferred.warnings, m);
            },
            ScanMsg::Done(n) => {
                let count = text::decimal_string(n as u128);
                let line = text::cat3("scan: complete, ", count.as_str(), " file(s)");
                text::push_string(&mut deferred.lines, line);
                self.scanning = false;
            },
        }
    }

    /// Notes that a scan is over although it did not say so.
    pub fn lose_scan(&mut self)
        ensures
            *final(self) == (Session { scanning: false, ..*old(self) }),
    {
        self.scanning = false;
    }

    /// Tells what was held back: lines for the log, then warnings.
    pub fn tell(&mut self, deferred: &Deferred)
        ensures
            *final(self) == (Session { journal: final(self).journal, ..*old(self) }),
            final(self).journal@ == journal::notified_all(
                journal::logged_all(
                    old(self).journal@,
                    text::texts(deferred.lines@),
                    deferred.lines@.len(),
                ),
                Severity::Warning,
                text::texts(deferred.warnings@),
                deferred.warnings@.len(),
            ),
    {
        self.journal.catch_up(&deferred.lines, &deferred.warnings);
    }
}

// ------------------------------------------------------------------ encode --

/// What the encodes report.
#[derive(Debug)]
pub enum EncodeMsg {
    Started(usize),
    Progress(usize, ProgressInfo),
    Finished(usize, Result<(), String>),
    Canceled(usize),
    AllDone,
}

/// What an encode that has just started is known to have done.
pub open spec fn no_progress() -> ProgressInfo {
    ProgressInfo { position: Position::Unknown, fps: None, speed: None }
}

/// The status of a file after a report about it.
pub open spec fn status_after(s: Status, msg: EncodeMsg) -> Status {
    match msg {
        EncodeMsg::Started(_) => Status::Encoding(no_progress()),
        EncodeMsg::Progress(_, info) => match s {
            Status::Encoding(_) => Status::Encoding(info),
            _ => s,
        },
        EncodeMsg::Finished(_, result) => match result {
            Ok(_) => Status::Done,
            Err(m) => Status::Failed(m),
        },
        EncodeMsg::Canceled(_) => Status::Canceled,
        EncodeMsg::AllDone => s,
    }
}

/// The position in the list that a report is about, if it is about one.
pub open spec fn subject(msg: EncodeMsg) -> Option<usize> {
    match msg {
        EncodeMsg::Started(i) => Some(i),
        EncodeMsg::Progress(i, _) => Some(i),
        EncodeMsg::Finished(i, _) => Some(i),
        EncodeMsg::Canceled(i) => Some(i),
        EncodeMsg::AllDone => None,
    }
}

/// Whether a report is about a file of the list.
pub open spec fn is_about(files: Seq<FileEntry>, msg: EncodeMsg) -> bool {
    subject(msg) matches Some(i) && i < files.len()
}

/// The list after a report; one about a position that it lacks changes nothing.
pub open spec fn files_after(files: Seq<FileEntry>, msg: EncodeMsg) -> Seq<FileEntry> {
    if is_about(files, msg) {
        let i = subject(msg)->0 as int;
        files.update(i, FileEntry { status: status_after(files[i].status, msg), ..files[i] })
    } else {
        files
    }
}

/// The line for the log that a report gives rise to.
pub open spec fn line_about(files: Seq<FileEntry>, msg: EncodeMsg) -> Option<Seq<char>> {
    match msg {
        EncodeMsg::Finished(i, Ok(_)) => if i < files.len() {
            Some("ok: "@ + files[i as int].rel@)
        } else {
            None
        },
        EncodeMsg::Canceled(i) => if i < files.len() {
            Some("canceled: "@ + files[i as int].rel@)
        } else {
            None
        },
        EncodeMsg::AllDone => Some("encode: complete"@),
        _ => None,
    }
}

/// The warning that a report gives rise to.
pub open spec fn warning_about(files: Seq<FileEntry>, msg: EncodeMsg) -> Option<Seq<char>> {
    match msg {
        EncodeMsg::Finished(i, Err(m)) => if i < files.len() {
            Some("Encode failed: "@ + files[i as int].rel@ + "\n"@ + m@)
        } else {
            None
        },
        _ => None,
    }
}

/// The positions of the files to be encoded among the first `k`.
pub open spec fn waiting_among(files: Seq<FileEntry>, k: nat) -> Seq<usize>
    decreases k,
{
    if k == 0 {
        Seq::empty()
    } else {
        let before = waiting_among(files, (k - 1) as nat);
        if listing::is_waiting(files[k - 1]) {
            before.push((k - 1) as usize)
        } else {
            before
        }
    }
}

/// One file to be encoded.
#[derive(Debug)]
pub struct Job {
    /// Its position in the list.
    pub index: usize,
    pub input: String,
    pub output: String,
    pub duration: Option<String>,
    pub source_subtitle_codecs: Vec<String>,
    pub unmappable_stream_indices: Vec<usize>,
    pub subtitles: Vec<SubtitleInput>,
}

/// How the files of a batch are encoded.
#[derive(Debug)]
pub struct Batch {
    pub profile: EncodingProfile,
    pub codec: Codec,
    pub backend: Backend,
    pub container: Container,
    pub quality: u8,
    /// Empty for the backend's default.
    pub preset: String,
    pub merge_only: bool,
    pub upscale: Upscale,
}

/// Whether a batch is encoded as a session says.
pub open spec fn is_batch_of(b: Batch, s: Session) -> bool {
    &&& b.profile == s.profile
    &&& b.codec == s.codec
    &&& b.backend == s.backend
    &&& b.container == s.container
    &&& b.quality == s.quality
    &&& b.preset@ == s.preset@
    &&& b.merge_only == s.merge_subtitles
    &&& b.upscale == s.upscale
}

/// Whether a job is that of the file at a position, with the subtitle files that
/// were found for it.
pub open spec fn is_job_of(
    j: Job,
    s: Session,
    index: usize,
    found: Seq<SidecarSubtitle>,
) -> bool {
    let f = s.files@[index as int];
    &&& j.index == index
    &&& j.input@ == f.abs@
    &&& j.output@ == f.output@
    &&& text::texts(j.source_subtitle_codecs@) == text::texts(f.source_subtitle_codecs@)
    &&& j.unmappable_stream_indices@ == f.unmappable_stream_indices@
    &&& input_texts(j.subtitles@) == job_subtitles(
        s.merge_subtitles,
        s.embed_subtitles,
        scan::sidecar_texts(f.discovered_subtitles@),
        scan::sidecar_texts(found),
    )
}

/// The inputs that subtitle files become.
pub open spec fn input_texts(v: Seq<SubtitleInput>) -> Seq<SubtitleText> {
    v.map_values(|s: SubtitleInput| s@)
}

/// The subtitle files to be muxed in: those found at scan time in merge mode,
/// those found now where they are to be embedded, else none.
pub open spec fn job_subtitles(
    merge: bool,
    embed: bool,
    discovered: Seq<SubtitleText>,
    found: Seq<SubtitleText>,
) -> Seq<SubtitleText> {
    if merge {
        discovered
    } else if embed {
        found
    } else {
        Seq::empty()
    }
}

fn copy_indices(v: &Vec<usize>) -> (r: Vec<usize>)
    ensures
        r@ == v@,
{
    let mut out: Vec<usize> = Vec::new();
    let mut i: usize = 0;
    while i < v.len()
        invariant
            i <= v@.len(),
            out@ == v@.take(i as int),
        decreases v@.len() - i,
    {
        out.push(v[i]);
        assert(v@.take(i + 1) =~= v@.take(i as int).push(v@[i as int]));
        i += 1;
    }
    assert(v@.take(i as int) =~= v@);
    out
}

/// How a file of a batch is encoded.
pub open spec fn batch_settings(b: Batch, job: Job) -> Settings {
    Settings {
        profile: b.profile,
        codec: b.codec,
        backend: b.backend,
        container: b.container,
        quality: b.quality as nat,
        preset: if b.preset@.len() == 0 {
            None
        } else {
            Some(b.preset@)
        },
        subtitles: input_texts(job.subtitles@),
        source_subtitle_codecs: text::texts(job.source_subtitle_codecs@),
        unmappable: job.unmappable_stream_indices@.map_values(|i: usize| i as nat),
        merge_only: b.merge_only,
        upscale: b.upscale,
    }
}

impl Batch {
    /// How a file of the batch is encoded.
    pub fn options<'a>(&'a self, job: &'a Job) -> (r: EncodeOptions<'a>)
        ensures
            r@ == batch_settings(*self, *job),
            r@ == (Settings {
                profile: self.profile,
                codec: self.codec,
                backend: self.backend,
                container: self.container,
                quality: self.quality as nat,
                preset: if self.preset@.len() == 0 {
                    None
                } else {
                    Some(self.preset@)
                },
                subtitles: input_texts(job.subtitles@),
                source_subtitle_codecs: text::texts(job.source_subtitle_codecs@),
                unmappable: job.unmappable_stream_indices@.map_values(|i: usize| i as nat),
                merge_only: self.merge_only,
                upscale: self.upscale,
            }),
    {
        let preset: Option<&'a str> = if self.preset.as_str().is_empty() {
            None
        } else {
            Some(self.preset.as_str())
        };
        EncodeOptions {
            profile: self.profile,
            codec: self.codec,
            backend: self.backend,
            container: self.container,
            quality: self.quality,
            preset,
            subtitles: job.subtitles.as_slice(),
            source_subtitle_codecs: job.source_subtitle_codecs.as_slice(),
            unmappable_stream_indices: job.unmappable_stream_indices.as_slice(),
            merge_only: self.merge_only,
            upscale: self.upscale,
        }
    }
}

/// The report on a job that has run: canceled, or how it ended.
pub fn job_report(index: usize, canceled: bool, result: Result<(), String>) -> (r: EncodeMsg)
    ensures
        r == if canceled {
            EncodeMsg::Canceled(index)
        } else {
            EncodeMsg::Finished(index, result)
        },
{
    if canceled {
        EncodeMsg::Canceled(index)
    } else {
        EncodeMsg::Finished(index, result)
    }
}

impl Session {
    /// Whether a scan can be asked for.
    pub fn can_scan(&self) -> (r: bool)
        ensures
            r == (!self.scanning && !self.encoding),
    {
        !self.scanning && !self.encoding
    }

    /// Whether encodes can be asked for.
    pub fn can_convert(&self) -> (r: bool)
        ensures
            r == (!self.encoding && self.files@.len() > 0),
    {
        !self.encoding && self.files.len() > 0
    }

    /// Whether a batch may begin; where one is running, the user is warned.
    pub fn ready_to_encode(&mut self) -> (r: bool)
        ensures
            r == !old(self).encoding,
            *final(self) == (Session { journal: final(self).journal, ..*old(self) }),
            final(self).journal@ == if old(self).encoding {
                journal::notified(
                    old(self).journal@,
                    Severity::Warning,
                    "Encode is already running."@,
                )
            } else {
                old(self).journal@
            },
    {
        if self.encoding {
            self.journal.notify_warning("Encode is already running.");
            false
        } else {
            true
        }
    }

    /// The positions of the files to be encoded: those decided on that are not
    /// done yet.
    pub fn waiting(&self) -> (r: Vec<usize>)
        ensures
            r@ == waiting_among(self.files@, self.files@.len()),
    {
        let mut out: Vec<usize> = Vec::new();
        let mut i: usize = 0;
        while i < self.files.len()
            invariant
                i <= self.files@.len(),
                out@ == waiting_among(self.files@, i as nat),
            decreases self.files@.len() - i,
        {
            if listing::waits(&self.files[i]) {
                out.push(i);
            }
            i += 1;
        }
        out
    }

    /// Whether subtitle files are looked for when a batch begins.
    pub fn looks_for_subtitles(&self) -> (r: bool)
        ensures
            r == (self.embed_subtitles && !self.merge_subtitles),
    {
        self.embed_subtitles && !self.merge_subtitles
    }

    /// The job for the file at a position. `found` are the subtitle files that
    /// were just looked for.
    pub fn job(&self, index: usize, found: &Vec<SidecarSubtitle>) -> (r: Job)
        requires
            index < self.files@.len(),
        ensures
            is_job_of(r, *self, index, found@),
            r.index == index,
            r.input@ == self.files@[index as int].abs@,
            r.output@ == self.files@[index as int].output@,
            text::opt_text(r.duration) == text::opt_text(self.files@[index as int].duration),
            text::texts(r.source_subtitle_codecs@) == text::texts(
                self.files@[index as int].source_subtitle_codecs@,
            ),
            r.unmappable_stream_indices@ == self.files@[index as int].unmappable_stream_indices@,
            input_texts(r.subtitles@) == job_subtitles(
                self.merge_subtitles,
                self.embed_subtitles,
                scan::sidecar_texts(self.files@[index as int].discovered_subtitles@),
                scan::sidecar_texts(found@),
            ),
    {
        let f = &self.files[index];
        let subtitles = if self.merge_subtitles {
            cli::subtitle_inputs(&f.discovered_subtitles)
        } else if self.embed_subtitles {
            cli::subtitle_inputs(found)
        } else {
            Vec::new()
        };
        assert(input_texts(subtitles@) =~= job_subtitles(
            self.merge_subtitles,
            self.embed_subtitles,
            scan::sidecar_texts(f.discovered_subtitles@),
            scan::sidecar_texts(found@),
        ));
        Job {
            index,
            input: f.abs.as_str().to_owned(),
            output: f.output.as_str().to_owned(),
            duration: text::copy_text(&f.duration),
            source_subtitle_codecs: text::copy_list(&f.source_subtitle_codecs),
            unmappable_stream_indices: copy_indices(&f.unmappable_stream_indices),
            subtitles,
        }
    }

    /// Begins a batch, and returns how its files are encoded; where there is
    /// nothing to encode, the user is warned.
    pub fn begin_encode(&mut self) -> (r: Option<Batch>)
        ensures
            if waiting_among(old(self).files@, old(self).files@.len()).len() == 0 {
                &&& r is None
                &&& *final(self) == (Session { journal: final(self).journal, ..*old(self) })
                &&& final(self).journal@ == journal::notified(
                    old(self).journal@,
                    Severity::Warning,
                    "Nothing to encode. Run Scan first, or there are no encodable files."@,
                )
            } else {
                &&& *final(self) == (Session {
                    encoding: true,
                    journal: final(self).journal,
                    ..*old(self)
                })
                &&& final(self).journal@ == journal::logged(old(self).journal@, "encode: started"@)
                &&& r matches Some(b) && b.profile == old(self).profile && b.codec == old(
                    self,
                ).codec && b.backend == old(self).backend && b.container == old(self).container
                    && b.quality == old(self).quality && b.preset@ == old(self).preset@
                    && b.merge_only == old(self).merge_subtitles && b.upscale == old(self).upscale
            },
            r matches Some(b) ==> is_batch_of(b, *old(self)),
    {
        let jobs = self.waiting();
        if jobs.len() == 0 {
            self.journal.notify_warning(
                "Nothing to encode. Run Scan first, or there are no encodable files.",
            );
            return None;
        }
        self.encoding = true;
        self.journal.log("encode: started");
        Some(
            Batch {
                profile: self.profile,
                codec: self.codec,
                backend: self.backend,
                container: self.container,
                quality: self.quality,
                preset: self.preset.as_str().to_owned(),
                merge_only: self.merge_subtitles,
                upscale: self.upscale,
            },
        )
    }

    /// Logs that the batch is to be stopped, where one is running.
    pub fn cancel_encode(&mut self) -> (r: bool)
        ensures
            r == old(self).encoding,
            *final(self) == (Session { journal: final(self).journal, ..*old(self) }),
            final(self).journal@ == if old(self).encoding {
                journal::logged(old(self).journal@, "encode: cancel requested"@)
            } else {
                old(self).journal@
            },
    {
        if self.encoding {
            self.journal.log("encode: cancel requested");
            true
        } else {
            false
        }
    }

    fn set_status(&mut self, index: usize, status: Status)
        requires
            index < old(self).files@.len(),
        ensures
            *final(self) == (Session { files: final(self).files, ..*old(self) }),
            final(self).files@ == old(self).files@.update(
                index as int,
                (FileEntry { status, ..old(self).files@[index as int] }),
            ),
    {
        self.files[index].status = status;
    }

    /// Reads one report of the encodes.
    pub fn take_encode(&mut self, msg: EncodeMsg, deferred: &mut Deferred)
        ensures
            *final(self) == (Session {
                files: final(self).files,
                encoding: old(self).encoding && !(msg is AllDone),
                ..*old(self)
            }),
            final(self).files@ == files_after(old(self).files@, msg),
            text::texts(final(deferred).lines@) == text::texts(old(deferred).lines@) + text::maybe(
                line_about(old(self).files@, msg),
            ),
            text::texts(final(deferred).warnings@) == text::texts(old(deferred).warnings@)
                + text::maybe(warning_about(old(self).files@, msg)),
    {
        let ghost files = self.files@;
        let mut line: Option<String> = None;
        let mut warning: Option<String> = None;
        match msg {
            EncodeMsg::Started(i) => {
                if i < self.files.len() {
                    self.set_status(
                        i,
                        Status::Encoding(
                            ProgressInfo { position: Position::Unknown, fps: None, speed: None },
                        ),
                    );
                }
            },
            EncodeMsg::Progress(i, info) => {
                if i < self.files.len() {
                    if matches!(self.files[i].status, Status::Encoding(_)) {
                        self.set_status(i, Status::Encoding(info));
                    }
                }
            },
            EncodeMsg::Finished(i, result) => {
                if i < self.files.len() {
                    match result {
                        Ok(_) => {
                            line = Some(text::cat("ok: ", self.files[i].rel.as_str()));
                            self.set_status(i, Status::Done);
                        },
                        Err(m) => {
                            let mut t = text::cat3(
                                "Encode failed: ",
                                self.files[i].rel.as_str(),
                                "\n",
                            );
                            t.append(m.as_str());
                            warning = Some(t);
                            self.set_status(i, Status::Failed(m));
                        },
                    }
                }
            },
            EncodeMsg::Canceled(i) => {
                if i < self.files.len() {
                    line = Some(text::cat("canceled: ", self.files[i].rel.as_str()));
                    self.set_status(i, Status::Canceled);
                }
            },
            EncodeMsg::AllDone => {
                line = Some("encode: complete".to_owned());
                self.encoding = false;
            },
        }
        proof {
            assert(self.files@ =~= files_after(files, msg));
        }
        text::push_maybe(&mut deferred.lines, line);
        text::push_maybe(&mut deferred.warnings, warning);
    }

    /// Notes that a batch is over although it did not say so.
    pub fn lose_encode(&mut self)
        ensures
            *final(self) == (Session { encoding: false, ..*old(self) }),
    {
        self.encoding = false;
    }
}

// --------------------------------------------------------------- selection --

/// The position of the first file with this path, however it is written, or the
/// length of the list.
pub open spec fn position_of(files: Seq<FileEntry>, p: Seq<char>, from: int) -> int
    decreases files.len() - from,
{
    if from >= files.len() {
        files.len() as int
    } else if path::components(files[from].abs@) == path::components(p) {
        from
    } else {
        position_of(files, p, from + 1)
    }
}

/// The list after the details of a file have come in, or failed to; those of a
/// file that it lacks are dropped.
pub open spec fn files_with_details(
    files: Seq<FileEntry>,
    p: Seq<char>,
    result: Result<FileMetadata, String>,
) -> Seq<FileEntry> {
    let i = position_of(files, p, 0);
    if i < files.len() {
        files.update(
            i,
            FileEntry {
                metadata: match result {
                    Ok(m) => MetaState::Loaded(m),
                    Err(e) => MetaState::Failed(e),
                },
                ..files[i]
            },
        )
    } else {
        files
    }
}

/// The selection after the file at `gone` has left the list.
pub open spec fn selection_without(selected: Option<usize>, gone: usize) -> Option<usize> {
    match selected {
        Some(s) => if s == gone {
            None
        } else if s > gone {
            Some((s - 1) as usize)
        } else {
            Some(s)
        },
        None => None,
    }
}

/// The names of the files with their capitals folded.
pub open spec fn folded_names(files: Seq<FileEntry>) -> Seq<Seq<char>> {
    Seq::new(files.len(), |i: int| text::unicode_lower(files[i].rel@))
}

/// The text that is searched for, with its capitals folded; none where nothing
/// is.
pub open spec fn folded_query(query: Seq<char>) -> Option<Seq<char>> {
    if query.len() == 0 {
        None
    } else {
        Some(text::unicode_lower(query))
    }
}

/// What is said in place of a file's details; nothing where they are there.
pub open spec fn details_text(f: FileEntry) -> Option<Seq<char>> {
    match f.metadata {
        MetaState::NotLoaded | MetaState::Loading => Some("Loading metadata for "@ + f.rel@ + "…"@),
        MetaState::Failed(e) => Some("Failed to read metadata for "@ + f.rel@ + ":\n"@ + e@),
        MetaState::Loaded(_) => None,
    }
}

/// What is said in place of a file's details.
pub fn details_message(f: &FileEntry) -> (r: Option<String>)
    ensures
        text::opt_text(r) == details_text(*f),
{
    match &f.metadata {
        MetaState::NotLoaded | MetaState::Loading => Some(
            text::cat3("Loading metadata for ", f.rel.as_str(), "…"),
        ),
        MetaState::Failed(e) => {
            let mut t = text::cat3("Failed to read metadata for ", f.rel.as_str(), ":\n");
            t.append(e.as_str());
            Some(t)
        },
        MetaState::Loaded(_) => None,
    }
}

impl Session {
    /// Selects a file, and returns its path where its details are to be loaded:
    /// the first time that it is selected.
    pub fn select_file(&mut self, index: usize) -> (r: Option<String>)
        ensures
            *final(self) == (Session {
                selected: Some(index),
                files: final(self).files,
                ..*old(self)
            }),
            if index < old(self).files@.len() && old(
                self,
            ).files@[index as int].metadata is NotLoaded {
                &&& r matches Some(p) && p@ == old(self).files@[index as int].abs@
                &&& final(self).files@ == old(self).files@.update(
                    index as int,
                    (FileEntry { metadata: MetaState::Loading, ..old(self).files@[index as int] }),
                )
            } else {
                r is None && final(self).files@ == old(self).files@
            },
    {
        self.selected = Some(index);
        if index >= self.files.len() {
            return None;
        }
        if !matches!(self.files[index].metadata, MetaState::NotLoaded) {
            return None;
        }
        self.files[index].metadata = MetaState::Loading;
        Some(self.files[index].abs.as_str().to_owned())
    }

    /// Takes in the details of a file.
    pub fn take_details(&mut self, p: &str, result: Result<FileMetadata, String>)
        ensures
            *final(self) == (Session { files: final(self).files, ..*old(self) }),
            final(self).files@ == files_with_details(old(self).files@, p@, result),
    {
        let ghost files = self.files@;
        let mut i: usize = 0;
        while i < self.files.len() && !path::same_path(self.files[i].abs.as_str(), p)
            invariant
                i <= self.files@.len(),
                *self == *old(self),
                files == self.files@,
                position_of(files, p@, 0) == position_of(files, p@, i as int),
            decreases self.files@.len() - i,
        {
            i += 1;
        }
        if i < self.files.len() {
            self.files[i].metadata = match result {
                Ok(m) => MetaState::Loaded(m),
                Err(e) => MetaState::Failed(e),
            };
        }
        assert(self.files@ =~= files_with_details(files, p@, result));
    }

    /// Removes a file from the list; the selection stays with its file.
    pub fn remove_file(&mut self, index: usize)
        requires
            index < old(self).files@.len(),
        ensures
            *final(self) == (Session {
                files: final(self).files,
                selected: selection_without(old(self).selected, index),
                ..*old(self)
            }),
            final(self).files@ == old(self).files@.remove(index as int),
    {
        let _ = self.files.remove(index);
        match self.selected {
            Some(s) => {
                if s == index {
                    self.selected = None;
                } else if s > index {
                    self.selected = Some(s - 1);
                }
            },
            None => {},
        }
    }

    /// The positions of the files that are shown, in the order in which they
    /// are: those that the filter lets through and whose name holds the text
    /// that is searched for, whatever its capitals.
    pub fn filtered_indices(&self) -> (r: Vec<usize>)
        requires
            self.sort_column == Some(SortColumn::Resolution) ==> forall|i: int|
                0 <= i < self.files@.len() ==> listing::countable(#[trigger] self.files@[i]),
        ensures
            order::is_stable_order(
                r@,
                listing::shown_marks(
                    self.files@,
                    folded_names(self.files@),
                    folded_query(self.search_query@),
                    self.filter_state,
                ),
                &listing::by_column(&self.files, self.sort_column, self.sort_ascending),
            ),
    {
        let mut names: Vec<String> = Vec::new();
        let ghost folded = folded_names(self.files@);
        let mut i: usize = 0;
        assert(text::texts(names@) =~= folded.take(0));
        while i < self.files.len()
            invariant
                i <= self.files@.len(),
                names@.len() == i,
                folded == folded_names(self.files@),
                text::texts(names@) == folded.take(i as int),
            decreases self.files@.len() - i,
        {
            text::push_string(&mut names, text::fold_case(self.files[i].rel.as_str()));
            assert(text::texts(names@).len() == names@.len());
            assert(folded.take(i + 1) =~= folded.take(i as int).push(folded[i as int]));
            i += 1;
        }
        assert(folded.take(i as int) =~= folded);
        if self.search_query.as_str().is_empty() {
            listing::shown_positions(
                &self.files,
                &names,
                None,
                self.filter_state,
                self.sort_column,
                self.sort_ascending,
            )
        } else {
            let needle = text::fold_case(self.search_query.as_str());
            listing::shown_positions(
                &self.files,
                &names,
                Some(needle.as_str()),
                self.filter_state,
                self.sort_column,
                self.sort_ascending,
            )
        }
    }
}

// -------------------------------------------------------------------- laws --

/// A report changes the status of one file at most, and nothing else of it.
pub proof fn law_reports_change_one_status(files: Seq<FileEntry>, msg: EncodeMsg, j: int)
    requires
        0 <= j < files.len(),
    ensures
        files_after(files, msg).len() == files.len(),
        files_after(files, msg)[j] == (FileEntry {
            status: files_after(files, msg)[j].status,
            ..files[j]
        }),
        !(subject(msg) matches Some(i) && i == j) ==> files_after(files, msg)[j] == files[j],
{
}

/// Progress reaches a file only while it is being encoded.
pub proof fn law_progress_revives_nothing(files: Seq<FileEntry>, i: usize, info: ProgressInfo)
    requires
        i < files.len(),
        !(files[i as int].status is Encoding),
    ensures
        files_after(files, EncodeMsg::Progress(i, info)) == files,
{
    assert(files_after(files, EncodeMsg::Progress(i, info)) =~= files);
}

/// A file that is done is not encoded again; one that failed or was canceled
/// may be.
pub proof fn law_what_is_encoded_again(files: Seq<FileEntry>, msg: EncodeMsg, i: usize)
    requires
        i < files.len(),
        subject(msg) == Some(i),
        files[i as int].decision == Decision::Encode,
    ensures
        (msg matches EncodeMsg::Finished(_, result) && result is Ok) ==> !listing::is_waiting(
            files_after(files, msg)[i as int],
        ),
        (msg matches EncodeMsg::Finished(_, result) && result is Err) ==> listing::is_waiting(
            files_after(files, msg)[i as int],
        ),
        msg is Canceled ==> listing::is_waiting(files_after(files, msg)[i as int]),
{
}

/// The files of a batch are those that the filter for what is to be encoded
/// shows.
pub proof fn law_batch_is_what_the_filter_shows(files: Seq<FileEntry>, k: nat, i: usize)
    requires
        k <= files.len() <= usize::MAX,
        i < files.len(),
    ensures
        waiting_among(files, k).contains(i) <==> i < k && listing::passes(
            files[i as int],
            FilterState::ToEncode,
        ),
    decreases k,
{
    let all = waiting_among(files, k);
    if k > 0 {
        let before = waiting_among(files, (k - 1) as nat);
        law_batch_is_what_the_filter_shows(files, (k - 1) as nat, i);
        if all.contains(i) {
            let m = choose|m: int| 0 <= m < all.len() && all[m] == i;
            if m < before.len() {
                assert(before[m] == i);
            }
        }
        if before.contains(i) {
            let m = choose|m: int| 0 <= m < before.len() && before[m] == i;
            assert(all[m] == i);
        }
        if i == k - 1 && listing::is_waiting(files[i as int]) {
            assert(all[before.len() as int] == i);
        }
    }
}

/// Removing another file leaves the selected one selected.
pub proof fn law_selection_stays_with_its_file(
    files: Seq<FileEntry>,
    selected: usize,
    gone: usize,
)
    requires
        selected < files.len() <= usize::MAX,
        gone < files.len(),
    ensures
        selected == gone ==> selection_without(Some(selected), gone) is None,
        selected != gone ==> {
            let now = selection_without(Some(selected), gone);
            now is Some && now->0 < files.len() - 1 && files.remove(gone as int)[now->0 as int]
                == files[selected as int]
        },
{
}

/// A file that could be probed and whose output does not exist is encoded by a
/// session where the command line would convert it with the same choices.
pub proof fn law_sessions_decide_like_runs(
    args: cli::Cli,
    source_codec: Seq<char>,
    sidecars: nat,
)
    requires
        cli::merge_conflict(args.profile, args.merge_subtitles) is None,
    ensures
        decision_for(
            args.profile,
            args.merge_subtitles,
            args.force,
            args.codec,
            source_codec,
            sidecars,
        ) == Decision::Encode <==> cli::verdict(args, false, Some(source_codec), sidecars)
            == cli::conversion(args),
{
    cli::law_when_a_file_is_converted(args, false, Some(source_codec), sidecars);
}

/// A session with one source and a shared output puts what it writes where the
/// command line would with the same choices.
pub proof fn law_sessions_place_like_runs(
    s: Session,
    args: cli::Cli,
    plan: ScanPlan,
    first_is_file: bool,
    root_is_dir: bool,
    root_is_file: bool,
    abs: Seq<char>,
    rel: Seq<char>,
)
    requires
        s.sources@.len() == 1,
        s.output is Some,
        plan.output is Single,
        same_dest(s.output->0, plan.output),
        plan.profile == s.profile,
        plan.container == s.container,
        plan.to_one_file == output_is_one_file(s, first_is_file, root_is_dir, root_is_file),
        args.profile == s.profile,
        args.container == s.container,
        args.output is Some,
        args.output->0@ == dest_text(plan.output),
        args.profile == EncodingProfile::Web && !first_is_file ==> !output::names_file(
            dest_text(plan.output),
            root_is_dir,
            root_is_file,
        ),
    ensures
        output_by_plan(plan, s.sources@[0]@, first_is_file, abs, rel) == cli::output_of(
            args,
            first_is_file,
            args.output->0@,
            root_is_dir,
            root_is_file,
            abs,
            rel,
        ),
{
}

/// With several sources a re-encoded file of a directory stands in a directory
/// next to it, where it stands in the directory itself; so a second scan of the
/// directory does not meet what was written for it.
pub proof fn law_mirror_stands_next_to_its_source(source: Seq<char>, abs: Seq<char>, c: Container)
    requires
        path::file_name(source) is Some,
        path::stripped(abs, source) is Some,
        path::file_name(path::stripped(abs, source)->0) is Some,
    ensures
        ({
            let rel = path::stripped(abs, source)->0;
            let written = planned_path(
                EncodingProfile::Standard,
                OutputDest::PerSource,
                c,
                source,
                false,
                abs,
                rel,
            );
            &&& path::components(written) == path::components(
                output::default_path(source, false, c),
            ) + path::components(rel).drop_last().push(
                path::file_stem(rel)->0 + seq!['.'] + crate::container::container_name(c),
            )
            &&& path::stripped(written, source) is None
        }),
{
    path::lemma_file_name(source);
    let mirror = output::default_path(source, false, c);
    let rel = path::stripped(abs, source)->0;
    let written = output::encoded_path(mirror, rel, c);
    output::law_output_mirrors_tree(mirror, source, abs, c);
    let tail = path::components(rel).drop_last().push(
        path::file_stem(rel)->0 + seq!['.'] + crate::container::container_name(c),
    );
    assert((path::components(mirror) + tail).take(path::components(mirror).len() as int)
        =~= path::components(mirror));
    output::law_default_output_is_outside_its_source(source, c, written);
}

/// A file of a batch is encoded as the command line would encode it with the same
/// choices.
pub proof fn law_sessions_encode_like_runs(b: Batch, job: Job, args: cli::Cli)
    requires
        args.profile == b.profile,
        args.codec == b.codec,
        args.backend == b.backend,
        args.container == b.container,
        args.quality == Some(b.quality),
        args.preset matches Some(p) ==> p@ == b.preset@ && b.preset@.len() > 0,
        args.preset is None ==> b.preset@.len() == 0,
        args.merge_subtitles == b.merge_only,
        args.upscale == b.upscale,
    ensures
        batch_settings(b, job) == cli::settings_for(
            args,
            job.subtitles@.map_values(|s: SubtitleInput| s@),
            text::texts(job.source_subtitle_codecs@),
            job.unmappable_stream_indices@.map_values(|i: usize| i as nat),
        ),
        batch_settings(b, job).quality == b.quality,
{
    assert(batch_settings(b, job).subtitles =~= job.subtitles@.map_values(|s: SubtitleInput| s@));
    assert(batch_settings(b, job).unmappable =~= job.unmappable_stream_indices@.map_values(
        |i: usize| i as nat,
    ));
}

/// A report sets the status of its file: started, it is being encoded and nothing
/// is known of its progress; it is then as far as the last report on progress
/// says; and in the end it is done, failed for the reason that was given, or
/// canceled.
pub proof fn law_reports_set_the_status(
    files: Seq<FileEntry>,
    i: usize,
    info: ProgressInfo,
    cause: String,
)
    requires
        i < files.len(),
    ensures
        files_after(files, EncodeMsg::Started(i))[i as int].status matches Status::Encoding(p)
            && p.position == Position::Unknown && p.fps is None && p.speed is None,
        files[i as int].status is Encoding ==> files_after(
            files,
            EncodeMsg::Progress(i, info),
        )[i as int].status == Status::Encoding(info),
        files_after(files, EncodeMsg::Finished(i, Ok(())))[i as int].status is Done,
        files_after(files, EncodeMsg::Finished(i, Err(cause)))[i as int].status == Status::Failed(
            cause,
        ),
        files_after(files, EncodeMsg::Canceled(i))[i as int].status is Canceled,
        files_after(files, EncodeMsg::AllDone) == files,
{
}

/// A failure is told to the user, with the file and the reason; a success and a
/// cancellation are logged.
pub proof fn law_what_is_told_about_an_end(files: Seq<FileEntry>, i: usize, cause: String)
    requires
        i < files.len(),
    ensures
        warning_about(files, EncodeMsg::Finished(i, Err(cause))) == Some(
            "Encode failed: "@ + files[i as int].rel@ + "\n"@ + cause@,
        ),
        line_about(files, EncodeMsg::Finished(i, Err(cause))) is None,
        line_about(files, EncodeMsg::Finished(i, Ok(()))) == Some("ok: "@ + files[i as int].rel@),
        warning_about(files, EncodeMsg::Finished(i, Ok(()))) is None,
        line_about(files, EncodeMsg::Canceled(i)) == Some("canceled: "@ + files[i as int].rel@),
        warning_about(files, EncodeMsg::Canceled(i)) is None,
{
}

/// Why a file is left: in merge mode, because there is nothing to merge; and else
/// because it is already in the target codec and that is not forced. The other
/// profiles leave none.
pub proof fn law_why_a_file_is_left(
    profile: EncodingProfile,
    merge: bool,
    force: bool,
    target: Codec,
    source_codec: Seq<char>,
    sidecars: nat,
)
    ensures
        ({
            let d = decision_for(profile, merge, force, target, source_codec, sidecars);
            let standard = profile == EncodingProfile::Standard;
            &&& d == Decision::SkipNoSubtitles <==> standard && merge && sidecars == 0
            &&& d == Decision::SkipAlreadyTarget <==> standard && !merge && !force
                && codec::is_target(target, source_codec)
            &&& d != Decision::SkipOutputExists
        }),
{
}

/// An entry holds what was found out about its file: its paths, and what ffprobe
/// says of it where its output does not exist yet.
pub proof fn law_entries_hold_what_was_found(
    plan: ScanPlan,
    e: FileEntry,
    abs: Seq<char>,
    rel: Seq<char>,
    output: Seq<char>,
    info: VideoInfo,
    sidecars: Seq<SidecarSubtitle>,
)
    requires
        is_probed_entry(plan, e, abs, rel, output, info, sidecars) || is_existing_entry(
            e,
            abs,
            rel,
            output,
        ),
    ensures
        e.abs@ == abs,
        e.rel@ == rel,
        e.output@ == output,
        e.status is Pending,
        e.metadata is NotLoaded,
        is_existing_entry(e, abs, rel, output) ==> e.decision == Decision::SkipOutputExists
            && e.source_codec is None && e.discovered_subtitles@.len() == 0,
        is_probed_entry(plan, e, abs, rel, output, info, sidecars) ==> {
            &&& e.source_codec matches Some(c) && c@ == info.codec@
            &&& e.width == info.width
            &&& e.height == info.height
            &&& e.bit_rate == info.bit_rate
            &&& e.duration == info.duration
            &&& e.source_subtitle_codecs@ == info.subtitle_codecs@
            &&& e.unmappable_stream_indices@ == info.unmappable_stream_indices@
            &&& plan.merge_subtitles ==> e.discovered_subtitles@ == sidecars
            &&& !plan.merge_subtitles ==> e.discovered_subtitles@.len() == 0
        },
{
}

/// A scan may begin when there are sources and an output, when the profile and
/// merge mode go together, and when each source is a directory or a video.
pub proof fn law_when_a_scan_may_begin(s: Session, kinds: Seq<SourceKind>)
    requires
        kinds.len() == s.sources@.len(),
    ensures
        scan_refusal(s, kinds) is None <==> {
            &&& s.sources@.len() > 0
            &&& s.output is Some
            &&& !(s.merge_subtitles && s.profile != EncodingProfile::Standard)
            &&& forall|i: int|
                0 <= i < kinds.len() ==> #[trigger] kinds[i] == SourceKind::Directory || (kinds[i]
                    == SourceKind::File && scan::has_video_extension(s.sources@[i]@))
        },
{
    let sources = text::texts(s.sources@);
    lemma_problems(sources, kinds, sources.len());
    assert(forall|i: int| 0 <= i < sources.len() ==> #[trigger] sources[i] == s.sources@[i]@);
    if source_problems(sources, kinds, sources.len()).len() == 0 {
        assert forall|i: int| 0 <= i < kinds.len() implies #[trigger] kinds[i]
            == SourceKind::Directory || (kinds[i] == SourceKind::File && scan::has_video_extension(
            s.sources@[i]@,
        )) by {
            assert(source_problem(sources[i], kinds[i]) is None);
        }
    }
    if forall|i: int|
        0 <= i < kinds.len() ==> #[trigger] kinds[i] == SourceKind::Directory || (kinds[i]
            == SourceKind::File && scan::has_video_extension(s.sources@[i]@)) {
        assert forall|i: int| 0 <= i < sources.len() implies source_problem(
            #[trigger] sources[i],
            kinds[i],
        ) is None by {}
    }
}

proof fn lemma_problems(sources: Seq<Seq<char>>, kinds: Seq<SourceKind>, k: nat)
    requires
        k <= sources.len(),
        sources.len() == kinds.len(),
    ensures
        source_problems(sources, kinds, k).len() == 0 <==> forall|i: int|
            0 <= i < k ==> source_problem(#[trigger] sources[i], kinds[i]) is None,
    decreases k,
{
    if k > 0 {
        lemma_problems(sources, kinds, (k - 1) as nat);
        let last = sources[k - 1];
        if source_problems(sources, kinds, k).len() == 0 {
            assert forall|i: int| 0 <= i < k implies source_problem(
                #[trigger] sources[i],
                kinds[i],
            ) is None by {
                if i < k - 1 {
                    assert(source_problems(sources, kinds, (k - 1) as nat).len() == 0);
                }
            }
        }
        if forall|i: int| 0 <= i < k ==> source_problem(#[trigger] sources[i], kinds[i]) is None {
            assert(source_problem(last, kinds[k - 1]) is None);
        }
    }
}

/// The files of a batch are taken in the order of the list, each once.
pub proof fn law_batch_keeps_the_order(files: Seq<FileEntry>, k: nat)
    requires
        k <= files.len(),
        files.len() <= usize::MAX,
    ensures
        forall|m: int|
            0 <= m < waiting_among(files, k).len() ==> #[trigger] waiting_among(files, k)[m] < k
                && files[waiting_among(files, k)[m] as int].decision == Decision::Encode && !(
            files[waiting_among(files, k)[m] as int].status is Done),
        forall|m: int, n: int|
            0 <= m < n < waiting_among(files, k).len() ==> waiting_among(files, k)[m]
                < waiting_among(files, k)[n],
    decreases k,
{
    if k > 0 {
        law_batch_keeps_the_order(files, (k - 1) as nat);
    }
}

/// Where the subtitle files of a job come from: in merge mode from the scan, and
/// else, where they are to be embedded, from what lies next to the video now.
pub proof fn law_where_subtitles_come_from(
    embed: bool,
    discovered: Seq<SubtitleText>,
    found: Seq<SubtitleText>,
)
    ensures
        job_subtitles(true, embed, discovered, found) == discovered,
        job_subtitles(false, true, discovered, found) == found,
        job_subtitles(false, false, discovered, found).len() == 0,
{
}

/// Several sources go next to themselves by default, a single one to its default
/// output.
pub proof fn law_default_destination(
    dest: OutputDest,
    sources: Seq<Seq<char>>,
    first_is_file: bool,
    c: Container,
)
    requires
        is_default_dest(dest, sources, first_is_file, c),
        sources.len() > 0,
    ensures
        dest is PerSource <==> sources.len() >= 2,
        dest matches OutputDest::Single(p) ==> sources.len() == 1 && p@ == output::default_path(
            sources[0],
            first_is_file,
            c,
        ),
{
}

/// What the other profiles write for several sources stands next to each video, as
/// it does for a run without an output.
pub proof fn law_copies_stand_next_to_each_video(
    plan: ScanPlan,
    args: cli::Cli,
    single: bool,
    root: Seq<char>,
    source: Seq<char>,
    abs: Seq<char>,
    rel: Seq<char>,
)
    requires
        plan.profile != EncodingProfile::Standard,
        plan.output is PerSource,
        args.profile == plan.profile,
        args.output is None,
    ensures
        output_by_plan(plan, source, single, abs, rel) == cli::output_of(
            args,
            single,
            root,
            false,
            false,
            abs,
            rel,
        ),
{
}

/// The details of a file reach the first entry with its path, and no other.
pub proof fn law_details_reach_their_file(
    files: Seq<FileEntry>,
    p: Seq<char>,
    result: Result<FileMetadata, String>,
    i: int,
)
    requires
        0 <= i < files.len(),
    ensures
        ({
            let after = files_with_details(files, p, result);
            let is_first = path::components(files[i].abs@) == path::components(p) && forall|j: int|
                0 <= j < i ==> path::components((#[trigger] files[j]).abs@) != path::components(p);
            &&& after.len() == files.len()
            &&& is_first ==> (match result {
                Ok(m) => after[i].metadata == MetaState::Loaded(m),
                Err(e) => after[i].metadata == MetaState::Failed(e),
            })
            &&& !is_first ==> after[i] == files[i]
            &&& after[i].abs == files[i].abs && after[i].status == files[i].status
        }),
{
    lemma_position(files, p, 0);
}

proof fn lemma_position(files: Seq<FileEntry>, p: Seq<char>, from: int)
    requires
        0 <= from <= files.len(),
    ensures
        from <= position_of(files, p, from) <= files.len(),
        forall|j: int|
            from <= j < position_of(files, p, from) ==> path::components((#[trigger] files[j]).abs@)
                != path::components(p),
        position_of(files, p, from) < files.len() ==> path::components(
            files[position_of(files, p, from)].abs@,
        ) == path::components(p),
    decreases files.len() - from,
{
    if from < files.len() && path::components(files[from].abs@) != path::components(p) {
        lemma_position(files, p, from + 1);
    }
}

/// The folder that is opened for a path is the path itself where it is one, and
/// else the folder that it lies in.
pub proof fn law_which_folder_is_opened(p: Seq<char>)
    ensures
        folder_of(p, true) == p,
        path::parent(p) is Some ==> folder_of(p, false) == path::parent(p)->0,
{
}

/// What is chosen in a session is what its files are encoded with.
pub proof fn law_choices_of_a_session_reach_the_encoder(s: Session, b: Batch, job: Job)
    requires
        is_batch_of(b, s),
    ensures
        ({
            let o = batch_settings(b, job);
            &&& o.profile == s.profile && o.codec == s.codec && o.backend == s.backend
            &&& o.container == s.container && o.upscale == s.upscale
            &&& o.quality == s.quality
            &&& o.merge_only == s.merge_subtitles
            &&& s.preset@.len() > 0 ==> o.preset == Some(s.preset@)
            &&& s.preset@.len() == 0 ==> o.preset is None
        }),
{
}

/// A job reads its own file and writes its own output, and brings along what was
/// found out about the file and the subtitle files that belong to it.
pub proof fn law_jobs_are_those_of_their_files(
    s: Session,
    b: Batch,
    j: Job,
    index: usize,
    found: Seq<SidecarSubtitle>,
)
    requires
        index < s.files@.len(),
        is_job_of(j, s, index, found),
    ensures
        ({
            let f = s.files@[index as int];
            let o = batch_settings(b, j);
            &&& j.index == index
            &&& j.input@ == f.abs@
            &&& j.output@ == f.output@
            &&& o.source_subtitle_codecs == text::texts(f.source_subtitle_codecs@)
            &&& o.unmappable == f.unmappable_stream_indices@.map_values(|i: usize| i as nat)
            &&& s.merge_subtitles ==> o.subtitles == scan::sidecar_texts(f.discovered_subtitles@)
            &&& !s.merge_subtitles && s.embed_subtitles ==> o.subtitles == scan::sidecar_texts(
                found,
            )
            &&& !s.merge_subtitles && !s.embed_subtitles ==> o.subtitles.len() == 0
        }),
{
    let o = batch_settings(b, j);
    assert(o.unmappable =~= s.files@[index as int].unmappable_stream_indices@.map_values(
        |i: usize| i as nat,
    ));
}

/// A scan goes by what is chosen in its session.
pub proof fn law_scans_follow_the_session(
    p: ScanPlan,
    s: Session,
    first_is_file: bool,
    root_is_dir: bool,
    root_is_file: bool,
)
    requires
        is_plan_of(p, s, first_is_file, root_is_dir, root_is_file),
    ensures
        p.profile == s.profile && p.codec == s.codec && p.container == s.container,
        p.force == s.force && p.recurse == s.recurse && p.merge_subtitles == s.merge_subtitles,
        s.output matches Some(OutputDest::Single(root)) ==> (p.output matches OutputDest::Single(q)
            && q@ == root@),
        s.output matches Some(OutputDest::PerSource) ==> p.output is PerSource && !p.to_one_file,
        p.to_one_file ==> s.sources@.len() == 1 && first_is_file && !root_is_dir && s.profile
            != EncodingProfile::Hls,
{
}

/// A search looks at the names of the files, and at the whole text that is searched
/// for, without regard to capitals; an empty text is none.
pub proof fn law_searches_fold_capitals(files: Seq<FileEntry>, query: Seq<char>)
    ensures
        folded_names(files).len() == files.len(),
        forall|i: int|
            0 <= i < files.len() ==> #[trigger] folded_names(files)[i] == text::unicode_lower(
                files[i].rel@,
            ),
        query.len() == 0 ==> folded_query(query) is None,
        query.len() > 0 ==> folded_query(query) == Some(text::unicode_lower(query)),
{
}

} // verus!
