//! The list of files that a session works on.

use vstd::prelude::*;
use crate::metadata;
use crate::metadata::FileMetadata;
use crate::order;
use crate::order::Ranking;
use crate::path;
use crate::progress::ProgressInfo;
use crate::scan::SidecarSubtitle;
use crate::text;
use crate::units;

verus! {

/// What is to be done with a file.
#[derive(Copy, Clone, Debug, PartialEq, Eq, Structural)]
pub enum Decision {
    Encode,
    SkipAlreadyTarget,
    SkipOutputExists,
    SkipNoSubtitles,
}

/// Which files are shown.
#[derive(Copy, Clone, Debug, PartialEq, Eq, Structural)]
pub enum FilterState {
    All,
    ToEncode,
    Done,
    Failed,
}

/// What the files are sorted by.
#[derive(Copy, Clone, Debug, PartialEq, Eq, Structural)]
pub enum SortColumn {
    Name,
    Resolution,
    Bitrate,
    Codec,
    Status,
}

/// How far a file has come.
#[derive(Debug)]
pub enum Status {
    Pending,
    Encoding(ProgressInfo),
    Done,
    Failed(String),
    Canceled,
}

/// What is known of a file's details.
#[derive(Debug)]
pub enum MetaState {
    NotLoaded,
    Loading,
    Loaded(FileMetadata),
    Failed(String),
}

/// A file of the list.
#[derive(Debug)]
pub struct FileEntry {
    pub abs: String,
    pub rel: String,
    pub output: String,
    pub source_codec: Option<String>,
    pub width: Option<u32>,
    pub height: Option<u32>,
    pub bit_rate: Option<u64>,
    /// The duration in seconds, as ffprobe writes it.
    pub duration: Option<String>,
    pub source_subtitle_codecs: Vec<String>,
    pub unmappable_stream_indices: Vec<usize>,
    /// Subtitle files found at scan time. Only populated in merge mode; in
    /// normal encode mode this stays empty and they are looked for at encode
    /// start.
    pub discovered_subtitles: Vec<SidecarSubtitle>,
    pub decision: Decision,
    pub status: Status,
    pub metadata: MetaState,
}

// ------------------------------------------------------- filter and sorting --

/// Whether a file is to be encoded and not done yet.
pub open spec fn is_waiting(f: FileEntry) -> bool {
    f.decision == Decision::Encode && !(f.status is Done)
}

/// Whether a filter lets a file through.
pub open spec fn passes(f: FileEntry, filter: FilterState) -> bool {
    match filter {
        FilterState::All => true,
        FilterState::ToEncode => is_waiting(f),
        FilterState::Done => f.status is Done,
        FilterState::Failed => f.status is Failed,
    }
}

/// Which files are shown: those that the filter lets through and whose name
/// holds the text that is searched for, if one is.
pub open spec fn shown_marks(
    files: Seq<FileEntry>,
    names: Seq<Seq<char>>,
    needle: Option<Seq<char>>,
    filter: FilterState,
) -> Seq<bool> {
    Seq::new(
        files.len(),
        |i: int|
            (match needle {
                Some(t) => text::occurs_in(t, names[i]),
                None => true,
            }) && passes(files[i], filter),
    )
}

/// The number of picture points of a file; none where a side is not known.
pub open spec fn pixels(f: FileEntry) -> nat {
    match (f.width, f.height) {
        (Some(w), Some(h)) => w as nat * h as nat,
        _ => 0,
    }
}

/// The place of a status in the order of statuses.
pub open spec fn status_rank(s: Status) -> nat {
    match s {
        Status::Pending => 0,
        Status::Encoding(_) => 1,
        Status::Done => 2,
        Status::Failed(_) => 3,
        Status::Canceled => 4,
    }
}

/// Whether one optional number comes before another; none comes first.
pub open spec fn number_before(a: Option<u64>, b: Option<u64>) -> bool {
    match (a, b) {
        (None, Some(_)) => true,
        (Some(x), Some(y)) => x < y,
        _ => false,
    }
}

/// Whether one optional text comes before another; none comes first.
pub open spec fn name_before(a: Option<Seq<char>>, b: Option<Seq<char>>) -> bool {
    match (a, b) {
        (None, Some(_)) => true,
        (Some(x), Some(y)) => text::text_before(x, y),
        _ => false,
    }
}

/// Whether file `f` comes before file `g` by a column.
pub open spec fn entry_before(f: FileEntry, g: FileEntry, column: SortColumn) -> bool {
    match column {
        SortColumn::Name => path::path_before(f.rel@, g.rel@),
        SortColumn::Resolution => pixels(f) < pixels(g),
        SortColumn::Bitrate => number_before(f.bit_rate, g.bit_rate),
        SortColumn::Codec => name_before(
            text::opt_text(f.source_codec),
            text::opt_text(g.source_codec),
        ),
        SortColumn::Status => status_rank(f.status) < status_rank(g.status),
    }
}

/// The order of files by a column, upward or downward; where there is none,
/// the files stay as they are.
pub struct ByColumn<'a> {
    pub files: &'a Vec<FileEntry>,
    pub column: Option<SortColumn>,
    pub ascending: bool,
}

/// The ranking of files by a column.
pub open spec fn by_column(
    files: &Vec<FileEntry>,
    column: Option<SortColumn>,
    ascending: bool,
) -> ByColumn<'_> {
    ByColumn { files, column, ascending }
}

/// Files are ordered weakly by each column.
proof fn lemma_entry_order(f: FileEntry, g: FileEntry, h: FileEntry, column: SortColumn)
    ensures
        entry_before(f, g, column) ==> !entry_before(g, f, column),
        !entry_before(g, f, column) && !entry_before(h, g, column) ==> !entry_before(h, f, column),
{
    match column {
        SortColumn::Name => {
            path::lemma_path_order(f.rel@, g.rel@, h.rel@);
        },
        SortColumn::Codec => {
            match (f.source_codec, g.source_codec, h.source_codec) {
                (Some(a), Some(b), Some(c)) => {
                    text::lemma_before_total(a@, b@);
                    text::lemma_before_total(b@, c@);
                    if text::text_before(a@, b@) && text::text_before(b@, a@) {
                        text::lemma_before_transitive(a@, b@, a@);
                        text::lemma_before_irreflexive(a@);
                    }
                    if text::text_before(c@, a@) && !text::text_before(b@, a@)
                        && !text::text_before(c@, b@) {
                        if a@ != b@ {
                            text::lemma_before_transitive(c@, a@, b@);
                        }
                    }
                },
                (Some(a), Some(b), None) => {
                    if text::text_before(a@, b@) && text::text_before(b@, a@) {
                        text::lemma_before_transitive(a@, b@, a@);
                        text::lemma_before_irreflexive(a@);
                    }
                },
                _ => {},
            }
        },
        _ => {},
    }
}

impl<'a> Ranking for ByColumn<'a> {
    open spec fn count(&self) -> nat {
        self.files@.len()
    }

    open spec fn before(&self, a: int, b: int) -> bool {
        match self.column {
            Some(c) => if self.ascending {
                entry_before(self.files@[a], self.files@[b], c)
            } else {
                entry_before(self.files@[b], self.files@[a], c)
            },
            None => false,
        }
    }

    proof fn lemma_weak_order(&self, a: int, b: int, c: int) {
        match self.column {
            Some(column) => {
                lemma_entry_order(self.files@[a], self.files@[b], self.files@[c], column);
                lemma_entry_order(self.files@[b], self.files@[a], self.files@[c], column);
                lemma_entry_order(self.files@[c], self.files@[b], self.files@[a], column);
            },
            None => {},
        }
    }

    fn comes_before(&self, a: usize, b: usize) -> (r: bool) {
        match self.column {
            Some(c) => {
                if self.ascending {
                    sorts_before(&self.files[a], &self.files[b], c)
                } else {
                    sorts_before(&self.files[b], &self.files[a], c)
                }
            },
            None => false,
        }
    }
}

fn pixel_count(f: &FileEntry) -> (r: u64)
    ensures
        r == pixels(*f),
{
    match (f.width, f.height) {
        (Some(w), Some(h)) => {
            assert(w as nat * h as nat <= 0xffff_ffff * 0xffff_ffff) by (nonlinear_arith)
                requires
                    0 <= w <= 0xffff_ffff,
                    0 <= h <= 0xffff_ffff,
            ;
            w as u64 * h as u64
        },
        _ => 0,
    }
}

fn rank_of(s: &Status) -> (r: u8)
    ensures
        r == status_rank(*s),
{
    match s {
        Status::Pending => 0,
        Status::Encoding(_) => 1,
        Status::Done => 2,
        Status::Failed(_) => 3,
        Status::Canceled => 4,
    }
}

fn sorts_before(f: &FileEntry, g: &FileEntry, column: SortColumn) -> (r: bool)
    ensures
        r == entry_before(*f, *g, column),
{
    match column {
        SortColumn::Name => path::path_is_before(f.rel.as_str(), g.rel.as_str()),
        SortColumn::Resolution => pixel_count(f) < pixel_count(g),
        SortColumn::Bitrate => match (f.bit_rate, g.bit_rate) {
            (None, Some(_)) => true,
            (Some(x), Some(y)) => x < y,
            _ => false,
        },
        SortColumn::Codec => match (&f.source_codec, &g.source_codec) {
            (None, Some(_)) => true,
            (Some(x), Some(y)) => text::is_before(x.as_str(), y.as_str()),
            _ => false,
        },
        SortColumn::Status => rank_of(&f.status) < rank_of(&g.status),
    }
}

fn lets_through(f: &FileEntry, filter: FilterState) -> (r: bool)
    ensures
        r == passes(*f, filter),
{
    match filter {
        FilterState::All => true,
        FilterState::ToEncode => waits(f),
        FilterState::Done => matches!(f.status, Status::Done),
        FilterState::Failed => matches!(f.status, Status::Failed(_)),
    }
}

/// Whether a file is to be encoded and not done yet.
pub fn waits(f: &FileEntry) -> (r: bool)
    ensures
        r == is_waiting(*f),
{
    f.decision == Decision::Encode && !matches!(f.status, Status::Done)
}

/// Whether the picture points of a file can be counted in 32 bits.
pub open spec fn countable(f: FileEntry) -> bool {
    pixels(f) <= u32::MAX
}

/// Whether the picture points of each file can be counted in 32 bits.
pub fn all_countable(files: &Vec<FileEntry>) -> (r: bool)
    ensures
        r == forall|i: int| 0 <= i < files@.len() ==> countable(#[trigger] files@[i]),
{
    let mut i: usize = 0;
    while i < files.len()
        invariant
            i <= files@.len(),
            forall|k: int| 0 <= k < i ==> countable(#[trigger] files@[k]),
        decreases files@.len() - i,
    {
        if pixel_count(&files[i]) > u32::MAX as u64 {
            assert(!countable(files@[i as int]));
            return false;
        }
        i += 1;
    }
    true
}

/// The positions of the files that are shown, in the order in which they are.
/// `names` are the files' names, and `needle` the text that is searched for, if
/// one is, with their capitals folded. Picture points are counted in 32 bits.
pub fn shown_positions(
    files: &Vec<FileEntry>,
    names: &Vec<String>,
    needle: Option<&str>,
    filter: FilterState,
    column: Option<SortColumn>,
    ascending: bool,
) -> (r: Vec<usize>)
    requires
        names@.len() == files@.len(),
        column == Some(SortColumn::Resolution) ==> forall|i: int|
            0 <= i < files@.len() ==> countable(#[trigger] files@[i]),
    ensures
        order::is_stable_order(
            r@,
            shown_marks(files@, text::texts(names@), text::opt_str(needle), filter),
            &by_column(files, column, ascending),
        ),
{
    let ghost marks = shown_marks(files@, text::texts(names@), text::opt_str(needle), filter);
    let mut keep: Vec<bool> = Vec::new();
    let mut i: usize = 0;
    while i < files.len()
        invariant
            i <= files@.len() == names@.len(),
            marks == shown_marks(files@, text::texts(names@), text::opt_str(needle), filter),
            keep@ == marks.take(i as int),
        decreases files@.len() - i,
    {
        let found = match needle {
            Some(t) => text::has_part(names[i].as_str(), t),
            None => true,
        };
        assert(text::texts(names@)[i as int] == names@[i as int]@);
        keep.push(found && lets_through(&files[i], filter));
        assert(marks.take(i + 1) =~= marks.take(i as int).push(marks[i as int]));
        i += 1;
    }
    assert(marks.take(i as int) =~= marks);
    let ranking = ByColumn { files, column, ascending };
    order::stable_order(&keep, &ranking)
}

// ----------------------------------------------------------------- summary --

/// What a file counts as.
#[derive(Copy, Clone, Debug, PartialEq, Eq, Structural)]
pub enum Class {
    Done,
    Failed,
    Skipped,
    ToEncode,
}

/// What a file counts as: how it ended, else what is to be done with it.
pub open spec fn class_of(f: FileEntry) -> Class {
    if f.status is Done {
        Class::Done
    } else if f.status is Failed {
        Class::Failed
    } else if f.decision != Decision::Encode {
        Class::Skipped
    } else {
        Class::ToEncode
    }
}

/// How many files count as `c`.
pub open spec fn class_count(files: Seq<FileEntry>, c: Class) -> nat
    decreases files.len(),
{
    if files.len() == 0 {
        0
    } else {
        class_count(files.drop_last(), c) + if class_of(files.last()) == c {
            1nat
        } else {
            0nat
        }
    }
}

/// How many files there are of each class.
#[derive(Copy, Clone, Debug, PartialEq, Eq, Structural)]
pub struct Summary {
    pub total: usize,
    pub to_encode: usize,
    pub done: usize,
    pub failed: usize,
    pub skipped: usize,
    /// The files that are not skipped.
    pub jobs: usize,
}

/// Every file has one class.
pub proof fn law_every_file_has_a_class(files: Seq<FileEntry>)
    ensures
        class_count(files, Class::Done) + class_count(files, Class::Failed) + class_count(
            files,
            Class::Skipped,
        ) + class_count(files, Class::ToEncode) == files.len(),
    decreases files.len(),
{
    if files.len() > 0 {
        law_every_file_has_a_class(files.drop_last());
    }
}

fn classify(f: &FileEntry) -> (r: Class)
    ensures
        r == class_of(*f),
{
    match &f.status {
        Status::Done => Class::Done,
        Status::Failed(_) => Class::Failed,
        _ => {
            if f.decision == Decision::Encode {
                Class::ToEncode
            } else {
                Class::Skipped
            }
        },
    }
}

/// Counts the files of each class.
pub fn summarize(files: &Vec<FileEntry>) -> (r: Summary)
    ensures
        r.total == files@.len(),
        r.to_encode == class_count(files@, Class::ToEncode),
        r.done == class_count(files@, Class::Done),
        r.failed == class_count(files@, Class::Failed),
        r.skipped == class_count(files@, Class::Skipped),
        r.jobs == r.to_encode + r.done + r.failed,
        r.jobs + r.skipped == r.total,
{
    let mut to_encode: usize = 0;
    let mut done: usize = 0;
    let mut failed: usize = 0;
    let mut skipped: usize = 0;
    let mut i: usize = 0;
    while i < files.len()
        invariant
            i <= files@.len(),
            to_encode <= i && done <= i && failed <= i && skipped <= i,
            to_encode == class_count(files@.take(i as int), Class::ToEncode),
            done == class_count(files@.take(i as int), Class::Done),
            failed == class_count(files@.take(i as int), Class::Failed),
            skipped == class_count(files@.take(i as int), Class::Skipped),
        decreases files@.len() - i,
    {
        assert(files@.take(i + 1).drop_last() =~= files@.take(i as int));
        match classify(&files[i]) {
            Class::ToEncode => {
                to_encode += 1;
            },
            Class::Done => {
                done += 1;
            },
            Class::Failed => {
                failed += 1;
            },
            Class::Skipped => {
                skipped += 1;
            },
        }
        i += 1;
    }
    proof {
        assert(files@.take(i as int) =~= files@);
        law_every_file_has_a_class(files@);
    }
    let total: usize = files.len();
    Summary { total, to_encode, done, failed, skipped, jobs: total - skipped }
}

/// The line about all files.
pub open spec fn summary_text(s: Summary) -> Seq<char> {
    "Files: "@ + text::decimal(s.total as nat) + "  |  to encode: "@ + text::decimal(
        s.to_encode as nat,
    ) + "  |  done: "@ + text::decimal(s.done as nat) + "  |  failed: "@ + text::decimal(
        s.failed as nat,
    ) + "  |  skipped: "@ + text::decimal(s.skipped as nat)
}

/// The line about all files.
pub fn summary_line(s: &Summary) -> (r: String)
    ensures
        r@ == summary_text(*s),
{
    let total = text::decimal_string(s.total as u128);
    let to_encode = text::decimal_string(s.to_encode as u128);
    let done = text::decimal_string(s.done as u128);
    let failed = text::decimal_string(s.failed as u128);
    let skipped = text::decimal_string(s.skipped as u128);
    let mut r = text::cat3("Files: ", total.as_str(), "  |  to encode: ");
    r.append(to_encode.as_str());
    r.append("  |  done: ");
    r.append(done.as_str());
    r.append("  |  failed: ");
    r.append(failed.as_str());
    r.append("  |  skipped: ");
    r.append(skipped.as_str());
    r
}

/// The line about the batch, where there is something in it.
pub open spec fn batch_text(s: Summary) -> Option<Seq<char>> {
    if s.jobs > 0 {
        Some("Batch Progress: "@ + text::decimal(s.done as nat) + " / "@ + text::decimal(s.jobs as nat))
    } else {
        None
    }
}

/// The line about the batch, where there is something in it.
pub fn batch_line(s: &Summary) -> (r: Option<String>)
    ensures
        text::opt_text(r) == batch_text(*s),
{
    if s.jobs > 0 {
        let done = text::decimal_string(s.done as u128);
        let jobs = text::decimal_string(s.jobs as u128);
        let mut r = text::cat3("Batch Progress: ", done.as_str(), " / ");
        r.append(jobs.as_str());
        Some(r)
    } else {
        None
    }
}

/// Whether everything in the batch is done.
pub fn batch_is_complete(s: &Summary) -> (r: bool)
    ensures
        r == (s.jobs > 0 && s.done == s.jobs),
{
    s.jobs > 0 && s.done == s.jobs
}

// ------------------------------------------------------------------ labels --

/// What is to be done with a file, in words.
pub open spec fn decision_text(d: Decision) -> Seq<char> {
    match d {
        Decision::Encode => "encode"@,
        Decision::SkipAlreadyTarget => "skip (target)"@,
        Decision::SkipOutputExists => "skip (exists)"@,
        Decision::SkipNoSubtitles => "skip (no sidecar subs)"@,
    }
}

/// What is to be done with a file, in words.
pub fn decision_label(d: Decision) -> (r: &'static str)
    ensures
        r@ == decision_text(d),
{
    match d {
        Decision::Encode => "encode",
        Decision::SkipAlreadyTarget => "skip (target)",
        Decision::SkipOutputExists => "skip (exists)",
        Decision::SkipNoSubtitles => "skip (no sidecar subs)",
    }
}

/// The name of a filter.
pub open spec fn filter_text(f: FilterState) -> Seq<char> {
    match f {
        FilterState::All => "All"@,
        FilterState::ToEncode => "To Encode"@,
        FilterState::Done => "Done"@,
        FilterState::Failed => "Failed"@,
    }
}

/// The name of a filter.
pub fn filter_label(f: FilterState) -> (r: &'static str)
    ensures
        r@ == filter_text(f),
{
    match f {
        FilterState::All => "All",
        FilterState::ToEncode => "To Encode",
        FilterState::Done => "Done",
        FilterState::Failed => "Failed",
    }
}

/// How far a file has come, in words, with the percentage where it is known.
pub open spec fn status_text(s: Status, percent: Option<u32>) -> Seq<char> {
    match s {
        Status::Pending => "pending"@,
        Status::Encoding(_) => match percent {
            Some(p) => "encoding "@ + text::pad_left(text::decimal(p as nat), 2) + "%"@,
            None => "encoding"@,
        },
        Status::Done => "done"@,
        Status::Failed(_) => "failed"@,
        Status::Canceled => "canceled"@,
    }
}

/// How far a file has come, in words.
pub fn status_label(s: &Status, percent: Option<u32>) -> (r: String)
    ensures
        r@ == status_text(*s, percent),
{
    match s {
        Status::Pending => "pending".to_owned(),
        Status::Encoding(_) => match percent {
            Some(p) => {
                let digits = text::decimal_string(p as u128);
                let padded = text::padded_left(digits.as_str(), 2);
                text::cat3("encoding ", padded.as_str(), "%")
            },
            None => "encoding".to_owned(),
        },
        Status::Done => "done".to_owned(),
        Status::Failed(_) => "failed".to_owned(),
        Status::Canceled => "canceled".to_owned(),
    }
}

/// A text, or another where there is none.
pub open spec fn or_else(o: Option<Seq<char>>, other: Seq<char>) -> Seq<char> {
    match o {
        Some(s) => s,
        None => other,
    }
}

/// A bit rate in words, where it is known.
pub open spec fn rate_text(bps: Option<u64>) -> Option<Seq<char>> {
    match bps {
        Some(b) => Some(units::bitrate_text(b as nat)),
        None => None,
    }
}

fn or_text(o: Option<String>, other: &str) -> (r: String)
    ensures
        r@ == or_else(text::opt_text(o), other@),
{
    match o {
        Some(s) => s,
        None => other.to_owned(),
    }
}

fn rate(bps: Option<u64>) -> (r: Option<String>)
    ensures
        text::opt_text(r) == rate_text(bps),
{
    match bps {
        Some(b) => Some(units::format_bitrate(b)),
        None => None,
    }
}

/// The size of a file's picture, or a dash.
pub fn resolution_label(f: &FileEntry) -> (r: String)
    ensures
        r@ == or_else(metadata::picture_text(f.width, f.height, "x"@), "-"@),
{
    or_text(metadata::picture_size(f.width, f.height, "x"), "-")
}

/// A file's bit rate, or a dash.
pub fn bitrate_label(f: &FileEntry) -> (r: String)
    ensures
        r@ == or_else(rate_text(f.bit_rate), "-"@),
{
    or_text(rate(f.bit_rate), "-")
}

/// A file's video codec, or a dash.
pub fn codec_column(f: &FileEntry) -> (r: String)
    ensures
        r@ == or_else(text::opt_text(f.source_codec), "-"@),
{
    or_text(text::copy_text(&f.source_codec), "-")
}

/// A file's codec, picture, bit rate and duration in one line.
pub open spec fn format_text(f: FileEntry, duration_secs: Option<u64>) -> Seq<char> {
    or_else(text::opt_text(f.source_codec), "unknown"@) + ", "@ + or_else(
        metadata::picture_text(f.width, f.height, "x"@),
        "unknown"@,
    ) + ", "@ + or_else(rate_text(f.bit_rate), "unknown"@) + ", "@ + or_else(
        match duration_secs {
            Some(d) => Some(units::duration_text(d as nat)),
            None => None,
        },
        "unknown"@,
    )
}

/// A file's codec, picture, bit rate and duration in one line. The duration is
/// given in whole seconds.
pub fn format_line(f: &FileEntry, duration_secs: Option<u64>) -> (r: String)
    ensures
        r@ == format_text(*f, duration_secs),
{
    let codec = or_text(text::copy_text(&f.source_codec), "unknown");
    let picture = or_text(metadata::picture_size(f.width, f.height, "x"), "unknown");
    let bit_rate = or_text(rate(f.bit_rate), "unknown");
    let shown = match duration_secs {
        Some(d) => Some(units::format_duration(d)),
        None => None,
    };
    let duration = or_text(shown, "unknown");
    let mut r = text::cat3(codec.as_str(), ", ", picture.as_str());
    r.append(", ");
    r.append(bit_rate.as_str());
    r.append(", ");
    r.append(duration.as_str());
    r
}

/// The subtitle streams inside a file, in words.
pub open spec fn internal_subtitles_text(codecs: Seq<Seq<char>>) -> Seq<char> {
    if codecs.len() == 0 {
        "none"@
    } else {
        text::decimal(codecs.len()) + " tracks: "@ + text::joined(codecs, ", "@)
    }
}

/// The subtitle streams inside a file, in words.
pub fn internal_subtitles(f: &FileEntry) -> (r: String)
    ensures
        r@ == internal_subtitles_text(text::texts(f.source_subtitle_codecs@)),
{
    let n: usize = f.source_subtitle_codecs.len();
    if n == 0 {
        "none".to_owned()
    } else {
        let count = text::decimal_string(n as u128);
        let names = text::join(&f.source_subtitle_codecs, ", ");
        text::cat3(count.as_str(), " tracks: ", names.as_str())
    }
}

/// A subtitle file in words.
pub open spec fn sidecar_text(name: Seq<char>, language: Option<Seq<char>>) -> Seq<char> {
    name + " ("@ + or_else(language, "unknown lang"@) + ")"@
}

/// A subtitle file in words.
pub fn sidecar_label(s: &SidecarSubtitle) -> (r: String)
    requires
        path::file_name(s.path@) is Some,
    ensures
        r@ == sidecar_text(path::file_name(s.path@)->0, text::opt_text(s.language)),
{
    let name = or_text(path::file_name_of(s.path.as_str()), "");
    let language = or_text(text::copy_text(&s.language), "unknown lang");
    let mut r = text::cat3(name.as_str(), " (", language.as_str());
    r.append(")");
    r
}

// -------------------------------------------------------------------- laws --

/// Which files a filter shows: all; those that are to be encoded and are not done;
/// those that are done; or those that failed.
pub proof fn law_what_a_filter_shows(f: FileEntry)
    ensures
        passes(f, FilterState::All),
        passes(f, FilterState::ToEncode) <==> (f.decision == Decision::Encode && !(f.status is Done)),
        passes(f, FilterState::Done) <==> f.status is Done,
        passes(f, FilterState::Failed) <==> f.status is Failed,
{
}

/// A search shows the files that the filter lets through and whose name holds the
/// text; without a text the filter alone decides.
pub proof fn law_what_a_search_shows(
    files: Seq<FileEntry>,
    names: Seq<Seq<char>>,
    needle: Seq<char>,
    filter: FilterState,
    i: int,
)
    requires
        0 <= i < files.len(),
    ensures
        shown_marks(files, names, Some(needle), filter).len() == files.len(),
        shown_marks(files, names, None, filter)[i] == passes(files[i], filter),
        shown_marks(files, names, Some(needle), filter)[i] <==> (passes(files[i], filter) && exists|
            at: int,
        |
            0 <= at <= names[i].len() - needle.len() && #[trigger] names[i].subrange(
                at,
                at + needle.len(),
            ) == needle),
{
    let mark = shown_marks(files, names, Some(needle), filter)[i];
    if text::occurs_in(needle, names[i]) {
        let at = choose|at: int|
            0 <= at <= names[i].len() - needle.len() && #[trigger] text::occurs_at(
                needle,
                names[i],
                at,
            );
        assert(names[i].subrange(at, at + needle.len()) == needle);
    }
    if exists|at: int|
        0 <= at <= names[i].len() - needle.len() && #[trigger] names[i].subrange(
            at,
            at + needle.len(),
        ) == needle {
        let at = choose|at: int|
            0 <= at <= names[i].len() - needle.len() && #[trigger] names[i].subrange(
                at,
                at + needle.len(),
            ) == needle;
        assert(text::occurs_at(needle, names[i], at));
    }
}

/// What files are sorted by: the name component by component; the number of
/// picture points and the bit rate as numbers, what is not known first; the codec
/// as text, what is not known first; and the status in the order in which a file
/// goes through it.
pub proof fn law_what_files_are_sorted_by(f: FileEntry, g: FileEntry)
    ensures
        entry_before(f, g, SortColumn::Name) == path::path_before(f.rel@, g.rel@),
        (f.width is Some && f.height is Some && g.width is Some && g.height is Some) ==> (
        entry_before(f, g, SortColumn::Resolution) <==> (f.width->0 as nat * f.height->0 as nat)
            < (g.width->0 as nat * g.height->0 as nat)),
        g.width is None || g.height is None ==> !entry_before(f, g, SortColumn::Resolution),
        (f.bit_rate is Some && g.bit_rate is Some) ==> entry_before(f, g, SortColumn::Bitrate) == (
        f.bit_rate->0 < g.bit_rate->0),
        f.bit_rate is None ==> entry_before(f, g, SortColumn::Bitrate) == (g.bit_rate is Some),
        g.bit_rate is None ==> !entry_before(f, g, SortColumn::Bitrate),
        (f.source_codec is Some && g.source_codec is Some) ==> entry_before(
            f,
            g,
            SortColumn::Codec,
        ) == text::text_before(f.source_codec->0@, g.source_codec->0@),
        f.source_codec is None ==> entry_before(f, g, SortColumn::Codec) == (g.source_codec is Some),
        g.source_codec is None ==> !entry_before(f, g, SortColumn::Codec),
        f.status is Pending ==> entry_before(f, g, SortColumn::Status) == !(g.status is Pending),
        f.status is Encoding ==> entry_before(f, g, SortColumn::Status) == (g.status is Done
            || g.status is Failed || g.status is Canceled),
        f.status is Done ==> entry_before(f, g, SortColumn::Status) == (g.status is Failed
            || g.status is Canceled),
        f.status is Failed ==> entry_before(f, g, SortColumn::Status) == (g.status is Canceled),
        f.status is Canceled ==> !entry_before(f, g, SortColumn::Status),
{
    if g.width is None || g.height is None {
        assert(pixels(g) == 0);
    }
}

/// Sorting downward turns the order round, and without a column nothing comes
/// before anything.
pub proof fn law_downward_is_upward_turned(
    files: &Vec<FileEntry>,
    column: SortColumn,
    a: int,
    b: int,
)
    ensures
        by_column(files, Some(column), true).before(a, b) == entry_before(
            files@[a],
            files@[b],
            column,
        ),
        by_column(files, Some(column), false).before(a, b) == by_column(
            files,
            Some(column),
            true,
        ).before(b, a),
        !by_column(files, None, true).before(a, b),
        !by_column(files, None, false).before(a, b),
{
}

/// What a file counts as: done or failed where it has ended so, and else to be
/// encoded where that was decided, and skipped where it was not.
pub proof fn law_what_a_file_counts_as(f: FileEntry)
    ensures
        f.status is Done ==> class_of(f) == Class::Done,
        f.status is Failed ==> class_of(f) == Class::Failed,
        !(f.status is Done) && !(f.status is Failed) ==> class_of(f) == if f.decision
            == Decision::Encode {
            Class::ToEncode
        } else {
            Class::Skipped
        },
{
}

/// A file more adds one to the count of its own class, and to no other.
pub proof fn law_a_file_counts_in_its_class(files: Seq<FileEntry>, f: FileEntry, c: Class)
    ensures
        class_count(Seq::empty(), c) == 0,
        class_count(files.push(f), c) == class_count(files, c) + (if class_of(f) == c {
            1int
        } else {
            0
        }),
{
    assert(files.push(f).drop_last() =~= files);
}

/// The line about all files names each count for what it is.
pub proof fn law_summary_names_the_counts(s: Summary)
    ensures
        ({
            let total = "Files: "@ + text::decimal(s.total as nat);
            let to_encode = "to encode: "@ + text::decimal(s.to_encode as nat);
            let done = "done: "@ + text::decimal(s.done as nat);
            let failed = "failed: "@ + text::decimal(s.failed as nat);
            let skipped = "skipped: "@ + text::decimal(s.skipped as nat);
            let bar = "  |  "@;
            summary_text(s) == total + bar + to_encode + bar + done + bar + failed + bar + skipped
        }),
        s.jobs > 0 ==> batch_text(s) == Some(
            "Batch Progress: "@ + text::decimal(s.done as nat) + " / "@ + text::decimal(
                s.jobs as nat,
            ),
        ),
        s.jobs == 0 ==> batch_text(s) is None,
{
    reveal_strlit("  |  ");
    reveal_strlit("to encode: ");
    reveal_strlit("done: ");
    reveal_strlit("failed: ");
    reveal_strlit("skipped: ");
    reveal_strlit("  |  to encode: ");
    reveal_strlit("  |  done: ");
    reveal_strlit("  |  failed: ");
    reveal_strlit("  |  skipped: ");
    let bar = "  |  "@;
    assert("  |  to encode: "@ =~= bar + "to encode: "@);
    assert("  |  done: "@ =~= bar + "done: "@);
    assert("  |  failed: "@ =~= bar + "failed: "@);
    assert("  |  skipped: "@ =~= bar + "skipped: "@);
    let a = "Files: "@ + text::decimal(s.total as nat);
    let b = text::decimal(s.to_encode as nat);
    let c = text::decimal(s.done as nat);
    let d = text::decimal(s.failed as nat);
    let e = text::decimal(s.skipped as nat);
    assert(a + (bar + "to encode: "@) + b + (bar + "done: "@) + c + (bar + "failed: "@) + d + (bar
        + "skipped: "@) + e =~= a + bar + ("to encode: "@ + b) + bar + ("done: "@ + c) + bar + (
    "failed: "@ + d) + bar + ("skipped: "@ + e));
}

/// What is shown of a file's picture, rate, codec and time stands in this order,
/// and what is not known is said not to be.
pub proof fn law_format_line_in_order(f: FileEntry, secs: u64)
    ensures
        (f.source_codec matches Some(c) && f.width matches Some(w) && f.height matches Some(h)
            && f.bit_rate matches Some(b)) ==> format_text(f, Some(secs)) == f.source_codec->0@
            + ", "@ + (text::decimal(f.width->0 as nat) + "x"@ + text::decimal(f.height->0 as nat))
            + ", "@ + units::bitrate_text(f.bit_rate->0 as nat) + ", "@ + units::duration_text(
            secs as nat,
        ),
        f.source_codec is None && f.width is None && f.bit_rate is None ==> format_text(f, None)
            == "unknown"@ + ", "@ + "unknown"@ + ", "@ + "unknown"@ + ", "@ + "unknown"@,
{
}

} // verus!
