//! The details of a file as shown to the user.

use vstd::prelude::*;
use crate::text;
use crate::units;

verus! {

/// The details of a file.
#[derive(Debug)]
pub struct FileMetadata {
    pub format_name: Option<String>,
    pub format_long_name: Option<String>,
    pub size_bytes: Option<u64>,
    /// The duration, rounded to whole seconds.
    pub duration_secs: Option<u64>,
    pub bit_rate: Option<u64>,
    pub title: Option<String>,
    pub streams: Vec<StreamInfo>,
}

/// The details of a stream.
#[derive(Debug)]
pub struct StreamInfo {
    pub index: u32,
    pub codec_type: String,
    pub codec_name: Option<String>,
    pub profile: Option<String>,
    pub width: Option<u32>,
    pub height: Option<u32>,
    pub pix_fmt: Option<String>,
    /// The frame rate, as it is shown.
    pub frame_rate: Option<String>,
    pub channels: Option<u32>,
    pub channel_layout: Option<String>,
    pub sample_rate: Option<u32>,
    pub bit_rate: Option<u64>,
    pub language: Option<String>,
    pub title: Option<String>,
    pub default: bool,
    pub forced: bool,
}

/// A detail with its name.
#[derive(Debug)]
pub struct Row {
    pub label: &'static str,
    pub value: String,
}

/// A detail with its name, as text.
#[verifier::ext_equal]
pub struct RowText {
    pub label: Seq<char>,
    pub value: Seq<char>,
}

impl View for Row {
    type V = RowText;

    open spec fn view(&self) -> RowText {
        RowText { label: self.label@, value: self.value@ }
    }
}

/// The details of a list.
pub open spec fn row_texts(rows: Seq<Row>) -> Seq<RowText> {
    rows.map_values(|r: Row| r@)
}

/// A row for a detail, where there is one.
pub open spec fn maybe_row(label: Seq<char>, value: Option<Seq<char>>) -> Seq<RowText> {
    match value {
        Some(v) => seq![RowText { label, value: v }],
        None => Seq::empty(),
    }
}

/// The name of the container, with its long name where that says more.
pub open spec fn container_text(m: FileMetadata) -> Option<Seq<char>> {
    match m.format_name {
        Some(name) => Some(
            match m.format_long_name {
                Some(long) => if long@ != name@ {
                    name@ + "  ("@ + long@ + ")"@
                } else {
                    name@
                },
                None => name@,
            },
        ),
        None => None,
    }
}

/// A rate in kb/s, rounded down.
pub open spec fn kilobits_text(rate: Option<u64>) -> Option<Seq<char>> {
    match rate {
        Some(r) => Some(text::decimal(r as nat / 1000) + " kb/s"@),
        None => None,
    }
}

/// The details of a file, in the order in which they are shown.
pub open spec fn metadata_table(path: Seq<char>, m: FileMetadata) -> Seq<RowText> {
    maybe_row("Path"@, Some(path)) + maybe_row("Container"@, container_text(m)) + maybe_row(
        "Size"@,
        match m.size_bytes {
            Some(n) => Some(
                units::size_text(n as nat) + " ("@ + text::decimal(n as nat) + " bytes)"@,
            ),
            None => None,
        },
    ) + maybe_row(
        "Duration"@,
        match m.duration_secs {
            Some(d) => Some(units::duration_text(d as nat)),
            None => None,
        },
    ) + maybe_row("Overall bitrate"@, kilobits_text(m.bit_rate)) + maybe_row(
        "Title"@,
        text::opt_text(m.title),
    )
}

/// A text behind a name, where there is one.
pub open spec fn named(label: Seq<char>, value: Option<String>) -> Option<Seq<char>> {
    match value {
        Some(v) => Some(label + v@),
        None => None,
    }
}

/// The size of the picture, where both sides are known.
pub open spec fn picture_text(
    width: Option<u32>,
    height: Option<u32>,
    times: Seq<char>,
) -> Option<Seq<char>> {
    match (width, height) {
        (Some(w), Some(h)) => Some(text::decimal(w as nat) + times + text::decimal(h as nat)),
        _ => None,
    }
}

/// The audio channels, with their layout where one is named.
pub open spec fn channels_text(s: StreamInfo) -> Option<Seq<char>> {
    match s.channels {
        Some(c) => Some(
            match s.channel_layout {
                Some(layout) => if layout@.len() > 0 {
                    text::decimal(c as nat) + "ch ("@ + layout@ + ")"@
                } else {
                    text::decimal(c as nat) + "ch"@
                },
                None => text::decimal(c as nat) + "ch"@,
            },
        ),
        None => None,
    }
}

/// The title in quotes.
pub open spec fn title_text(s: StreamInfo) -> Option<Seq<char>> {
    match s.title {
        Some(t) => Some("title=\""@ + t@ + "\""@),
        None => None,
    }
}

/// What a stream is marked as.
pub open spec fn flags_text(s: StreamInfo) -> Option<Seq<char>> {
    match (s.default, s.forced) {
        (true, true) => Some("[default,forced]"@),
        (true, false) => Some("[default]"@),
        (false, true) => Some("[forced]"@),
        (false, false) => None,
    }
}

/// The details of a stream that are known, in the order in which they are shown.
pub open spec fn detail_parts(s: StreamInfo) -> Seq<Seq<char>> {
    text::maybe(named("profile="@, s.profile)) + text::maybe(
        picture_text(s.width, s.height, "×"@),
    ) + text::maybe(text::opt_text(s.pix_fmt)) + text::maybe(text::opt_text(s.frame_rate))
        + text::maybe(channels_text(s)) + text::maybe(
        match s.sample_rate {
            Some(r) => Some(text::decimal(r as nat) + " Hz"@),
            None => None,
        },
    ) + text::maybe(kilobits_text(s.bit_rate)) + text::maybe(named("lang="@, s.language))
        + text::maybe(title_text(s)) + text::maybe(flags_text(s))
}

/// The details of a stream in one line.
pub open spec fn detail_text(s: StreamInfo) -> Seq<char> {
    text::joined(detail_parts(s), " • "@)
}

/// The line that names a stream.
pub open spec fn header_text(s: StreamInfo) -> Seq<char> {
    "#"@ + text::decimal(s.index as nat) + " "@ + s.codec_type@ + ": "@ + (match s.codec_name {
        Some(c) => c@,
        None => "(unknown)"@,
    })
}

/// The lines about the first `k` streams.
pub open spec fn stream_texts(streams: Seq<StreamInfo>, k: nat) -> Seq<Seq<char>>
    decreases k,
{
    if k == 0 {
        Seq::empty()
    } else {
        let s = streams[k - 1];
        stream_texts(streams, (k - 1) as nat).push(header_text(s)) + (if detail_text(s).len() > 0 {
            seq!["    "@ + detail_text(s)]
        } else {
            Seq::empty()
        })
    }
}

fn push_row(rows: &mut Vec<Row>, label: &'static str, value: Option<String>)
    ensures
        row_texts(final(rows)@) == row_texts(old(rows)@) + maybe_row(label@, text::opt_text(value)),
{
    match value {
        Some(value) => {
            let row = Row { label, value };
            let ghost seen = row@;
            rows.push(row);
            assert(row_texts(rows@) =~= row_texts(old(rows)@).push(seen));
        },
        None => {},
    }
    assert(row_texts(rows@) =~= row_texts(old(rows)@) + maybe_row(label@, text::opt_text(value)));
}

fn kilobits(rate: Option<u64>) -> (r: Option<String>)
    ensures
        text::opt_text(r) == kilobits_text(rate),
{
    match rate {
        Some(b) => {
            let n = text::decimal_string((b / 1000) as u128);
            Some(text::cat(n.as_str(), " kb/s"))
        },
        None => None,
    }
}

fn name_before(label: &str, value: &Option<String>) -> (r: Option<String>)
    ensures
        text::opt_text(r) == named(label@, *value),
{
    match value {
        Some(v) => Some(text::cat(label, v.as_str())),
        None => None,
    }
}

/// The size of the picture, where both sides are known.
pub fn picture_size(width: Option<u32>, height: Option<u32>, times: &str) -> (r: Option<String>)
    ensures
        text::opt_text(r) == picture_text(width, height, times@),
{
    match (width, height) {
        (Some(w), Some(h)) => {
            let a = text::decimal_string(w as u128);
            let b = text::decimal_string(h as u128);
            Some(text::cat3(a.as_str(), times, b.as_str()))
        },
        _ => None,
    }
}

/// The details of a file, in the order in which they are shown.
pub fn metadata_rows(path: &str, meta: &FileMetadata) -> (r: Vec<Row>)
    ensures
        row_texts(r@) == metadata_table(path@, *meta),
{
    let mut rows: Vec<Row> = Vec::new();
    assert(row_texts(rows@) =~= Seq::<RowText>::empty());
    push_row(&mut rows, "Path", Some(path.to_owned()));
    assert(row_texts(rows@) =~= maybe_row("Path"@, Some(path@)));
    let container = match &meta.format_name {
        Some(name) => Some(
            match &meta.format_long_name {
                Some(long) => {
                    if !text::same(long.as_str(), name.as_str()) {
                        let mut t = text::cat3(name.as_str(), "  (", long.as_str());
                        t.append(")");
                        t
                    } else {
                        name.as_str().to_owned()
                    }
                },
                None => name.as_str().to_owned(),
            },
        ),
        None => None,
    };
    push_row(&mut rows, "Container", container);
    let size = match meta.size_bytes {
        Some(n) => {
            let shown = units::format_size(n);
            let digits = text::decimal_string(n as u128);
            let mut t = text::cat3(shown.as_str(), " (", digits.as_str());
            t.append(" bytes)");
            Some(t)
        },
        None => None,
    };
    push_row(&mut rows, "Size", size);
    let duration = match meta.duration_secs {
        Some(d) => Some(units::format_duration(d)),
        None => None,
    };
    push_row(&mut rows, "Duration", duration);
    push_row(&mut rows, "Overall bitrate", kilobits(meta.bit_rate));
    push_row(&mut rows, "Title", text::copy_text(&meta.title));
    rows
}

fn channels(s: &StreamInfo) -> (r: Option<String>)
    ensures
        text::opt_text(r) == channels_text(*s),
{
    match s.channels {
        Some(c) => {
            let n = text::decimal_string(c as u128);
            match &s.channel_layout {
                Some(layout) => {
                    if layout.as_str().is_empty() {
                        Some(text::cat(n.as_str(), "ch"))
                    } else {
                        let mut t = text::cat3(n.as_str(), "ch (", layout.as_str());
                        t.append(")");
                        Some(t)
                    }
                },
                None => Some(text::cat(n.as_str(), "ch")),
            }
        },
        None => None,
    }
}

/// The details of a stream in one line; empty where none is known.
pub fn stream_detail(s: &StreamInfo) -> (r: String)
    ensures
        r@ == detail_text(*s),
{
    let mut parts: Vec<String> = Vec::new();
    assert(text::texts(parts@) =~= Seq::<Seq<char>>::empty());
    text::push_maybe(&mut parts, name_before("profile=", &s.profile));
    assert(text::texts(parts@) =~= text::maybe(named("profile="@, s.profile)));
    text::push_maybe(&mut parts, picture_size(s.width, s.height, "×"));
    text::push_maybe(&mut parts, text::copy_text(&s.pix_fmt));
    text::push_maybe(&mut parts, text::copy_text(&s.frame_rate));
    text::push_maybe(&mut parts, channels(s));
    let rate = match s.sample_rate {
        Some(r) => {
            let n = text::decimal_string(r as u128);
            Some(text::cat(n.as_str(), " Hz"))
        },
        None => None,
    };
    text::push_maybe(&mut parts, rate);
    text::push_maybe(&mut parts, kilobits(s.bit_rate));
    text::push_maybe(&mut parts, name_before("lang=", &s.language));
    let title = match &s.title {
        Some(t) => Some(text::cat3("title=\"", t.as_str(), "\"")),
        None => None,
    };
    text::push_maybe(&mut parts, title);
    let flags = match (s.default, s.forced) {
        (true, true) => Some("[default,forced]".to_owned()),
        (true, false) => Some("[default]".to_owned()),
        (false, true) => Some("[forced]".to_owned()),
        (false, false) => None,
    };
    text::push_maybe(&mut parts, flags);
    text::join(&parts, " • ")
}

/// The lines about the streams of a file: each is named, and what is known of
/// it follows.
pub fn stream_lines(meta: &FileMetadata) -> (r: Vec<String>)
    ensures
        text::texts(r@) == stream_texts(meta.streams@, meta.streams@.len()),
{
    let mut lines: Vec<String> = Vec::new();
    let mut i: usize = 0;
    assert(text::texts(lines@) =~= Seq::<Seq<char>>::empty());
    while i < meta.streams.len()
        invariant
            i <= meta.streams@.len(),
            text::texts(lines@) == stream_texts(meta.streams@, i as nat),
        decreases meta.streams@.len() - i,
    {
        let s = &meta.streams[i];
        let index = text::decimal_string(s.index as u128);
        let mut header = text::cat3("#", index.as_str(), " ");
        header.append(s.codec_type.as_str());
        header.append(": ");
        match &s.codec_name {
            Some(c) => {
                header.append(c.as_str());
            },
            None => {
                header.append("(unknown)");
            },
        }
        text::push_string(&mut lines, header);
        let detail = stream_detail(s);
        let more = if detail.as_str().is_empty() {
            None
        } else {
            Some(text::cat("    ", detail.as_str()))
        };
        text::push_maybe(&mut lines, more);
        assert(text::texts(lines@) =~= stream_texts(meta.streams@, (i + 1) as nat));
        i += 1;
    }
    lines
}

/// The heading over the streams of a file.
pub fn streams_heading(meta: &FileMetadata) -> (r: String)
    ensures
        r@ == "Streams ("@ + text::decimal(meta.streams@.len()) + ")"@,
{
    let n = text::decimal_string(meta.streams.len() as u128);
    text::cat3("Streams (", n.as_str(), ")")
}

// -------------------------------------------------------------------- laws --

/// Whether a table says something under a name.
pub open spec fn says(table: Seq<RowText>, label: Seq<char>, value: Seq<char>) -> bool {
    table.contains(RowText { label, value })
}

/// Every detail that is known has its row, under its own name: the path, the size
/// to the byte, the time, the rate in whole kilobits and the title.
pub proof fn law_every_known_detail_is_shown(path: Seq<char>, m: FileMetadata)
    ensures
        ({
            let table = metadata_table(path, m);
            &&& table[0] == (RowText { label: "Path"@, value: path })
            &&& m.size_bytes matches Some(n) ==> says(
                table,
                "Size"@,
                units::size_text(n as nat) + " ("@ + text::decimal(n as nat) + " bytes)"@,
            )
            &&& m.duration_secs matches Some(d) ==> says(
                table,
                "Duration"@,
                units::duration_text(d as nat),
            )
            &&& m.bit_rate matches Some(r) ==> says(
                table,
                "Overall bitrate"@,
                text::decimal(r as nat / 1000) + " kb/s"@,
            )
            &&& m.title matches Some(t) ==> says(table, "Title"@, t@)
            &&& m.format_name matches Some(n) ==> says(
                table,
                "Container"@,
                if m.format_long_name matches Some(l) && l@ != n@ {
                    n@ + "  ("@ + m.format_long_name->0@ + ")"@
                } else {
                    n@
                },
            )
            &&& table.len() == 1 + (if m.format_name is Some {
                1int
            } else {
                0
            }) + (if m.size_bytes is Some {
                1int
            } else {
                0
            }) + (if m.duration_secs is Some {
                1int
            } else {
                0
            }) + (if m.bit_rate is Some {
                1int
            } else {
                0
            }) + (if m.title is Some {
                1int
            } else {
                0
            })
        }),
{
    let table = metadata_table(path, m);
    let size = match m.size_bytes {
        Some(n) => Some(units::size_text(n as nat) + " ("@ + text::decimal(n as nat) + " bytes)"@),
        None => None,
    };
    let time = match m.duration_secs {
        Some(d) => Some(units::duration_text(d as nat)),
        None => None,
    };
    let a = maybe_row("Path"@, Some(path));
    let b = maybe_row("Container"@, container_text(m));
    let c = maybe_row("Size"@, size);
    let d = maybe_row("Duration"@, time);
    let e = maybe_row("Overall bitrate"@, kilobits_text(m.bit_rate));
    let f = maybe_row("Title"@, text::opt_text(m.title));
    assert(table == a + b + c + d + e + f);
    if b.len() > 0 {
        assert(table[1] == b[0]);
    }
    if c.len() > 0 {
        assert(table[(a + b).len() as int] == c[0]);
    }
    if d.len() > 0 {
        assert(table[(a + b + c).len() as int] == d[0]);
    }
    if e.len() > 0 {
        assert(table[(a + b + c + d).len() as int] == e[0]);
    }
    if f.len() > 0 {
        assert(table[(a + b + c + d + e).len() as int] == f[0]);
    }
}

/// Every detail of a stream that is known is among its details: the picture as
/// width times height, the channels with their layout, the sample rate, the rate
/// in whole kilobits, the language, the title and the marks.
pub proof fn law_every_known_detail_of_a_stream_is_shown(s: StreamInfo)
    ensures
        ({
            let parts = detail_parts(s);
            &&& s.profile matches Some(p) ==> parts.contains("profile="@ + p@)
            &&& (s.width matches Some(w) && s.height matches Some(h)) ==> parts.contains(
                text::decimal(s.width->0 as nat) + "×"@ + text::decimal(s.height->0 as nat),
            )
            &&& s.pix_fmt matches Some(p) ==> parts.contains(p@)
            &&& s.frame_rate matches Some(r) ==> parts.contains(r@)
            &&& s.channels matches Some(c) ==> parts.contains(
                if s.channel_layout matches Some(l) && l@.len() > 0 {
                    text::decimal(c as nat) + "ch ("@ + s.channel_layout->0@ + ")"@
                } else {
                    text::decimal(c as nat) + "ch"@
                },
            )
            &&& s.sample_rate matches Some(r) ==> parts.contains(text::decimal(r as nat) + " Hz"@)
            &&& s.bit_rate matches Some(r) ==> parts.contains(
                text::decimal(r as nat / 1000) + " kb/s"@,
            )
            &&& s.language matches Some(l) ==> parts.contains("lang="@ + l@)
            &&& s.title matches Some(t) ==> parts.contains("title=\""@ + t@ + "\""@)
            &&& s.default && s.forced ==> parts.contains("[default,forced]"@)
            &&& s.default && !s.forced ==> parts.contains("[default]"@)
            &&& !s.default && s.forced ==> parts.contains("[forced]"@)
        }),
{
    let parts = detail_parts(s);
    let a = text::maybe(named("profile="@, s.profile));
    let b = text::maybe(picture_text(s.width, s.height, "×"@));
    let c = text::maybe(text::opt_text(s.pix_fmt));
    let d = text::maybe(text::opt_text(s.frame_rate));
    let e = text::maybe(channels_text(s));
    let hertz = match s.sample_rate {
        Some(r) => Some(text::decimal(r as nat) + " Hz"@),
        None => None,
    };
    let f = text::maybe(hertz);
    let g = text::maybe(kilobits_text(s.bit_rate));
    let h = text::maybe(named("lang="@, s.language));
    let i = text::maybe(title_text(s));
    let j = text::maybe(flags_text(s));
    lemma_maybe(named("profile="@, s.profile));
    lemma_maybe(picture_text(s.width, s.height, "×"@));
    lemma_maybe(text::opt_text(s.pix_fmt));
    lemma_maybe(text::opt_text(s.frame_rate));
    lemma_maybe(channels_text(s));
    lemma_maybe(hertz);
    lemma_maybe(kilobits_text(s.bit_rate));
    lemma_maybe(named("lang="@, s.language));
    lemma_maybe(title_text(s));
    lemma_maybe(flags_text(s));
    lemma_ten(a, b, c, d, e, f, g, h, i, j);
}

proof fn lemma_maybe(o: Option<Seq<char>>)
    ensures
        o matches Some(x) ==> text::maybe(o).contains(x),
{
    if o is Some {
        assert(text::maybe(o)[0] == o->0);
    }
}

proof fn lemma_two(a: Seq<Seq<char>>, b: Seq<Seq<char>>)
    ensures
        forall|x: Seq<char>| a.contains(x) ==> #[trigger] (a + b).contains(x),
        forall|x: Seq<char>| b.contains(x) ==> #[trigger] (a + b).contains(x),
{
    assert forall|x: Seq<char>| a.contains(x) implies #[trigger] (a + b).contains(x) by {
        let k = choose|k: int| 0 <= k < a.len() && a[k] == x;
        assert((a + b)[k] == x);
    }
    assert forall|x: Seq<char>| b.contains(x) implies #[trigger] (a + b).contains(x) by {
        let k = choose|k: int| 0 <= k < b.len() && b[k] == x;
        assert((a + b)[a.len() + k] == x);
    }
}

/// What is in one of ten lists is in all of them together.
proof fn lemma_ten(
    a: Seq<Seq<char>>,
    b: Seq<Seq<char>>,
    c: Seq<Seq<char>>,
    d: Seq<Seq<char>>,
    e: Seq<Seq<char>>,
    f: Seq<Seq<char>>,
    g: Seq<Seq<char>>,
    h: Seq<Seq<char>>,
    i: Seq<Seq<char>>,
    j: Seq<Seq<char>>,
)
    ensures
        forall|x: Seq<char>|
            a.contains(x) || b.contains(x) || c.contains(x) || d.contains(x) || e.contains(x)
                || f.contains(x) || g.contains(x) || h.contains(x) || i.contains(x) || j.contains(x)
                ==> #[trigger] (a + b + c + d + e + f + g + h + i + j).contains(x),
{
    lemma_two(a, b);
    lemma_two(a + b, c);
    lemma_two(a + b + c, d);
    lemma_two(a + b + c + d, e);
    lemma_two(a + b + c + d + e, f);
    lemma_two(a + b + c + d + e + f, g);
    lemma_two(a + b + c + d + e + f + g, h);
    lemma_two(a + b + c + d + e + f + g + h, i);
    lemma_two(a + b + c + d + e + f + g + h + i, j);
    assert forall|x: Seq<char>|
        a.contains(x) || b.contains(x) || c.contains(x) || d.contains(x) || e.contains(x)
            || f.contains(x) || g.contains(x) || h.contains(x) || i.contains(x) || j.contains(
            x,
        ) implies #[trigger] (a + b + c + d + e + f + g + h + i + j).contains(x) by {
        if a.contains(x) || b.contains(x) {
            assert((a + b).contains(x));
        }
        if (a + b).contains(x) || c.contains(x) {
            assert((a + b + c).contains(x));
        }
        if (a + b + c).contains(x) || d.contains(x) {
            assert((a + b + c + d).contains(x));
        }
        if (a + b + c + d).contains(x) || e.contains(x) {
            assert((a + b + c + d + e).contains(x));
        }
        if (a + b + c + d + e).contains(x) || f.contains(x) {
            assert((a + b + c + d + e + f).contains(x));
        }
        if (a + b + c + d + e + f).contains(x) || g.contains(x) {
            assert((a + b + c + d + e + f + g).contains(x));
        }
        if (a + b + c + d + e + f + g).contains(x) || h.contains(x) {
            assert((a + b + c + d + e + f + g + h).contains(x));
        }
        if (a + b + c + d + e + f + g + h).contains(x) || i.contains(x) {
            assert((a + b + c + d + e + f + g + h + i).contains(x));
        }
    }
}

/// Each stream is named in a line of its own, in order, by its number, its kind and
/// its codec.
pub proof fn law_streams_are_listed_in_order(streams: Seq<StreamInfo>, k: nat)
    requires
        k <= streams.len(),
    ensures
        forall|i: int|
            0 <= i < k ==> stream_texts(streams, k).contains(
                "#"@ + text::decimal((#[trigger] streams[i]).index as nat) + " "@
                    + streams[i].codec_type@ + ": "@ + (match streams[i].codec_name {
                    Some(c) => c@,
                    None => "(unknown)"@,
                }),
            ),
        k <= stream_texts(streams, k).len() <= 2 * k,
        k > 0 ==> stream_texts(streams, (k - 1) as nat).is_prefix_of(stream_texts(streams, k)),
    decreases k,
{
    if k > 0 {
        law_streams_are_listed_in_order(streams, (k - 1) as nat);
        let before = stream_texts(streams, (k - 1) as nat);
        let all = stream_texts(streams, k);
        assert(all.subrange(0, before.len() as int) =~= before);
        assert(all[before.len() as int] == header_text(streams[k - 1]));
        assert forall|i: int| 0 <= i < k implies all.contains(
            "#"@ + text::decimal((#[trigger] streams[i]).index as nat) + " "@
                + streams[i].codec_type@ + ": "@ + (match streams[i].codec_name {
                Some(c) => c@,
                None => "(unknown)"@,
            }),
        ) by {
            let h = header_text(streams[i]);
            if i < k - 1 {
                assert(before.contains(h));
                let m = choose|m: int| 0 <= m < before.len() && before[m] == h;
                assert(all[m] == h);
            }
            assert(all.contains(h));
        }
    }
}

} // verus!
