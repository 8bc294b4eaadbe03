//! Which files are videos, and which subtitle files belong to a video.

use vstd::prelude::*;
use crate::convert::SubtitleText;
use crate::order;
use crate::order::Ranking;
use crate::output;
use crate::path;
use crate::text;

verus! {

// ------------------------------------------------------------------ videos --

/// The file extensions of videos, in lower case.
pub open spec fn video_extensions() -> Seq<Seq<char>> {
    seq![
        "mkv"@,
        "mp4"@,
        "avi"@,
        "mov"@,
        "wmv"@,
        "flv"@,
        "webm"@,
        "m4v"@,
        "ts"@,
        "mpg"@,
        "mpeg"@,
        "m2ts"@,
    ]
}

/// Whether a path has the extension of a video; capitals do not matter.
pub open spec fn has_video_extension(p: Seq<char>) -> bool {
    path::extension(p) matches Some(e) && video_extensions().contains(text::lower(e))
}

/// Whether a path is the root directory of an HLS bundle.
pub open spec fn is_bundle(p: Seq<char>, is_dir: bool) -> bool {
    is_dir && (path::extension(p) matches Some(e) && text::lower(e) == "hls"@)
}

/// Whether a path is named like a browser-friendly copy.
pub open spec fn is_web_copy(p: Seq<char>) -> bool {
    path::file_name(p) matches Some(n) && text::ends_with(text::lower(n), ".web.mp4"@)
}

/// Something met on a walk through a directory tree.
#[derive(Debug)]
pub struct WalkEntry {
    pub path: String,
    /// How many levels below the root of the walk it lies.
    pub depth: usize,
    /// Whether it is a directory, behind any links.
    pub is_dir: bool,
    /// Whether it is a regular file itself.
    pub is_file: bool,
}

/// Whether `p` is `base` or lies below it.
pub open spec fn lies_in(p: Seq<char>, base: Seq<char>) -> bool {
    path::stripped(p, base) is Some
}

/// Whether a path lies in none of the bundles met on a walk.
pub open spec fn outside_bundles(entries: Seq<WalkEntry>, p: Seq<char>) -> bool {
    forall|j: int|
        0 <= j < entries.len() && is_bundle(#[trigger] entries[j].path@, entries[j].is_dir)
            ==> !lies_in(p, entries[j].path@)
}

/// Whether the entry at `i` is a source: a video file that is not an output of
/// an earlier run, within reach of the walk.
pub open spec fn is_source(entries: Seq<WalkEntry>, recursive: bool, i: int) -> bool {
    let e = entries[i];
    &&& e.is_file
    &&& has_video_extension(e.path@)
    &&& !is_web_copy(e.path@)
    &&& recursive || e.depth <= 1
    &&& outside_bundles(entries, e.path@)
}

/// The sources among the first `k` entries.
pub open spec fn sources_among(entries: Seq<WalkEntry>, recursive: bool, k: nat) -> Seq<Seq<char>>
    decreases k,
{
    if k == 0 {
        Seq::empty()
    } else {
        let before = sources_among(entries, recursive, (k - 1) as nat);
        if is_source(entries, recursive, k - 1) {
            before.push(entries[k - 1].path@)
        } else {
            before
        }
    }
}

/// The videos under `root`: itself, where it is a file, else the sources among
/// what a walk through it met.
pub open spec fn videos_under(
    root: Seq<char>,
    root_is_file: bool,
    recursive: bool,
    entries: Seq<WalkEntry>,
) -> Seq<Seq<char>> {
    if root_is_file {
        if has_video_extension(root) {
            seq![root]
        } else {
            Seq::empty()
        }
    } else {
        sources_among(entries, recursive, entries.len())
    }
}

/// The file extensions of videos, in lower case.
pub fn known_extensions() -> (r: &'static [&'static str])
    ensures
        text::str_texts(r@) == video_extensions(),
{
    let r: &'static [&'static str] = &[
        "mkv",
        "mp4",
        "avi",
        "mov",
        "wmv",
        "flv",
        "webm",
        "m4v",
        "ts",
        "mpg",
        "mpeg",
        "m2ts",
    ];
    assert(text::str_texts(r@) =~= video_extensions());
    r
}

/// Whether a path has the extension of a video.
pub fn is_video(path: &str) -> (r: bool)
    ensures
        r == has_video_extension(path@),
{
    match path::extension_of(path) {
        Some(e) => {
            let lower = text::to_lower(e.as_str());
            let known = known_extensions();
            let ghost all = video_extensions();
            let mut i: usize = 0;
            while i < known.len()
                invariant
                    i <= known@.len() == all.len(),
                    text::str_texts(known@) == all,
                    all == video_extensions(),
                    lower@ == text::lower(e@),
                    path::extension(path@) == Some(e@),
                    forall|k: int| 0 <= k < i ==> all[k] != lower@,
                decreases known@.len() - i,
            {
                assert(all[i as int] == text::str_texts(known@)[i as int]);
                if text::same(known[i], lower.as_str()) {
                    assert(all.contains(lower@));
                    return true;
                }
                i += 1;
            }
            assert(!all.contains(lower@));
            false
        },
        None => false,
    }
}

/// Whether a path is the root directory of an HLS bundle.
pub fn is_hls_bundle_dir(p: &str, is_dir: bool) -> (r: bool)
    ensures
        r == is_bundle(p@, is_dir),
{
    if !is_dir {
        return false;
    }
    match path::extension_of(p) {
        Some(e) => {
            let lower = text::to_lower(e.as_str());
            text::same(lower.as_str(), "hls")
        },
        None => false,
    }
}

/// Whether a path is named like a browser-friendly copy.
pub fn is_web_sibling(p: &str) -> (r: bool)
    ensures
        r == is_web_copy(p@),
{
    match path::file_name_of(p) {
        Some(n) => {
            let lower = text::to_lower(n.as_str());
            text::has_tail(lower.as_str(), ".web.mp4")
        },
        None => false,
    }
}

fn in_no_bundle(entries: &Vec<WalkEntry>, bundles: &Vec<usize>, p: &str) -> (r: bool)
    requires
        forall|k: int|
            0 <= k < bundles@.len() ==> (#[trigger] bundles@[k]) < entries@.len() && is_bundle(
                entries@[bundles@[k] as int].path@,
                entries@[bundles@[k] as int].is_dir,
            ),
        forall|j: int|
            0 <= j < entries@.len() && is_bundle(#[trigger] entries@[j].path@, entries@[j].is_dir)
                ==> bundles@.contains(j as usize),
    ensures
        r == outside_bundles(entries@, p@),
{
    let mut k: usize = 0;
    while k < bundles.len()
        invariant
            k <= bundles@.len(),
            forall|i: int|
                0 <= i < bundles@.len() ==> (#[trigger] bundles@[i]) < entries@.len() && is_bundle(
                    entries@[bundles@[i] as int].path@,
                    entries@[bundles@[i] as int].is_dir,
                ),
            forall|i: int|
                0 <= i < k ==> !lies_in(p@, entries@[(#[trigger] bundles@[i]) as int].path@),
        decreases bundles@.len() - k,
    {
        match path::strip_base(p, entries[bundles[k]].path.as_str()) {
            Some(_) => {
                assert(is_bundle(
                    entries@[bundles@[k as int] as int].path@,
                    entries@[bundles@[k as int] as int].is_dir,
                ));
                return false;
            },
            None => {},
        }
        k += 1;
    }
    let n: usize = entries.len();
    proof {
        assert forall|j: int|
            0 <= j < entries@.len() && is_bundle(
                #[trigger] entries@[j].path@,
                entries@[j].is_dir,
            ) implies !lies_in(p@, entries@[j].path@) by {
            assert(j < n);
            assert(bundles@.contains(j as usize));
            let i = choose|i: int| 0 <= i < bundles@.len() && bundles@[i] == j as usize;
            assert(!lies_in(p@, entries@[bundles@[i] as int].path@));
        }
    }
    true
}

/// The videos under `root`. `entries` is what a walk through `root` met, and is
/// not looked at where `root` is a file.
///
/// HLS bundles and browser-friendly copies are left out, so that a second run
/// does not take what an earlier one wrote for fresh sources.
pub fn find_videos(
    root: &str,
    root_is_file: bool,
    recursive: bool,
    entries: &Vec<WalkEntry>,
) -> (r: Vec<String>)
    ensures
        text::texts(r@) == videos_under(root@, root_is_file, recursive, entries@),
{
    let mut out: Vec<String> = Vec::new();
    assert(text::texts(out@) =~= Seq::<Seq<char>>::empty());
    if root_is_file {
        if is_video(root) {
            text::push_text(&mut out, root);
        }
        assert(text::texts(out@) =~= videos_under(root@, root_is_file, recursive, entries@));
        return out;
    }
    let mut bundles: Vec<usize> = Vec::new();
    let mut i: usize = 0;
    while i < entries.len()
        invariant
            i <= entries@.len(),
            forall|k: int|
                0 <= k < bundles@.len() ==> (#[trigger] bundles@[k]) < i && is_bundle(
                    entries@[bundles@[k] as int].path@,
                    entries@[bundles@[k] as int].is_dir,
                ),
            forall|j: int|
                0 <= j < i && is_bundle(#[trigger] entries@[j].path@, entries@[j].is_dir)
                    ==> bundles@.contains(j as usize),
        decreases entries@.len() - i,
    {
        if is_hls_bundle_dir(entries[i].path.as_str(), entries[i].is_dir) {
            let ghost before = bundles@;
            bundles.push(i);
            proof {
                assert(bundles@[before.len() as int] == i);
                assert forall|j: int|
                    0 <= j < i + 1 && is_bundle(
                        #[trigger] entries@[j].path@,
                        entries@[j].is_dir,
                    ) implies bundles@.contains(j as usize) by {
                    if j < i {
                        assert(before.contains(j as usize));
                        let k = choose|k: int| 0 <= k < before.len() && before[k] == j as usize;
                        assert(bundles@[k] == j as usize);
                    }
                }
            }
        }
        i += 1;
    }
    let mut k: usize = 0;
    while k < entries.len()
        invariant
            k <= entries@.len(),
            forall|m: int|
                0 <= m < bundles@.len() ==> (#[trigger] bundles@[m]) < entries@.len() && is_bundle(
                    entries@[bundles@[m] as int].path@,
                    entries@[bundles@[m] as int].is_dir,
                ),
            forall|j: int|
                0 <= j < entries@.len() && is_bundle(#[trigger] entries@[j].path@, entries@[j].is_dir)
                    ==> bundles@.contains(j as usize),
            text::texts(out@) == sources_among(entries@, recursive, k as nat),
        decreases entries@.len() - k,
    {
        let e = &entries[k];
        if e.is_file && (recursive || e.depth <= 1) && is_video(e.path.as_str()) && !is_web_sibling(
            e.path.as_str(),
        ) && in_no_bundle(entries, &bundles, e.path.as_str()) {
            text::push_text(&mut out, e.path.as_str());
        }
        k += 1;
    }
    out
}

// --------------------------------------------------------------- subtitles --

/// A subtitle file that belongs to a video.
#[derive(Debug)]
pub struct SidecarSubtitle {
    pub path: String,
    pub language: Option<String>,
}

impl View for SidecarSubtitle {
    type V = SubtitleText;

    open spec fn view(&self) -> SubtitleText {
        SubtitleText { path: self.path@, language: text::opt_text(self.language) }
    }
}

impl Clone for SidecarSubtitle {
    fn clone(&self) -> (r: Self)
        ensures
            r@ == self@,
    {
        SidecarSubtitle {
            path: self.path.as_str().to_owned(),
            language: text::copy_text(&self.language),
        }
    }
}

/// The paths and languages of subtitle files.
pub open spec fn sidecar_texts(v: Seq<SidecarSubtitle>) -> Seq<SubtitleText> {
    v.map_values(|s: SidecarSubtitle| s@)
}

/// Something in a video's directory.
#[derive(Debug)]
pub struct DirItem {
    pub path: String,
    /// Whether it is a file, behind any links.
    pub is_file: bool,
}

/// The directory in which a video's subtitle files are looked for; none where
/// the video has no stem.
pub open spec fn subtitle_folder(video: Seq<char>) -> Option<Seq<char>> {
    match path::file_stem(video) {
        Some(_) => Some(
            match path::parent(video) {
                Some(d) => if d.len() > 0 {
                    d
                } else {
                    "."@
                },
                None => "."@,
            },
        ),
        None => None,
    }
}

/// The language that the text behind a video's stem and a dot names: what comes
/// before the next dot, in lower case, where it is two or three ASCII letters.
pub open spec fn language_of(suffix: Seq<char>) -> Option<Seq<char>> {
    let first = suffix.take(text::next_at(suffix, '.', 0));
    if (first.len() == 2 || first.len() == 3) && forall|i: int|
        0 <= i < first.len() ==> text::is_letter(#[trigger] first[i]) {
        Some(text::lower(first))
    } else {
        None
    }
}

/// The subtitle file that `p` is for a video with this stem: an `.srt` file
/// with the same stem, or with the stem and a dot at the beginning of its own.
pub open spec fn sidecar_for(stem: Seq<char>, p: Seq<char>, is_file: bool) -> Option<SubtitleText> {
    if is_file && (path::extension(p) matches Some(e) && text::lower(e) == "srt"@) {
        let own = path::file_stem(p)->0;
        if own == stem {
            Some(SubtitleText { path: p, language: None })
        } else if text::starts_with(own, stem + "."@) {
            Some(SubtitleText { path: p, language: language_of(own.skip(stem.len() as int + 1)) })
        } else {
            None
        }
    } else {
        None
    }
}

/// Which items are subtitle files of a video with this stem.
pub open spec fn sidecar_marks(stem: Seq<char>, items: Seq<DirItem>) -> Seq<bool> {
    items.map_values(|d: DirItem| sidecar_for(stem, d.path@, d.is_file) is Some)
}

/// The order of items by their paths.
pub struct ByPath<'a> {
    pub items: &'a Vec<DirItem>,
}

impl<'a> Ranking for ByPath<'a> {
    open spec fn count(&self) -> nat {
        self.items@.len()
    }

    open spec fn before(&self, a: int, b: int) -> bool {
        path::path_before(self.items@[a].path@, self.items@[b].path@)
    }

    proof fn lemma_weak_order(&self, a: int, b: int, c: int) {
        path::lemma_path_order(
            self.items@[a].path@,
            self.items@[b].path@,
            self.items@[c].path@,
        );
    }

    fn comes_before(&self, a: usize, b: usize) -> (r: bool) {
        path::path_is_before(self.items[a].path.as_str(), self.items[b].path.as_str())
    }
}

/// The subtitle files at the given positions.
pub open spec fn picked(
    stem: Seq<char>,
    items: Seq<DirItem>,
    order: Seq<usize>,
) -> Seq<SubtitleText> {
    order.map_values(
        |i: usize| sidecar_for(stem, items[i as int].path@, items[i as int].is_file)->0,
    )
}

/// Whether `order` orders the subtitle files among `items` by path, and `subs`
/// are these files.
pub open spec fn sidecars_in_order(
    order: Seq<usize>,
    subs: Seq<SubtitleText>,
    stem: Seq<char>,
    items: &Vec<DirItem>,
) -> bool {
    &&& order::is_stable_order(order, sidecar_marks(stem, items@), &by_path(items))
    &&& subs == picked(stem, items@, order)
}

/// Whether `subs` are the subtitle files among `items` for a video with this
/// stem, ordered by path.
pub open spec fn are_sidecars_of(
    subs: Seq<SubtitleText>,
    stem: Seq<char>,
    items: &Vec<DirItem>,
) -> bool {
    exists|order: Seq<usize>| #[trigger] sidecars_in_order(order, subs, stem, items)
}

/// Whether `subs` are the subtitle files of `video` among `items`, ordered by
/// path.
pub open spec fn are_sidecars(
    subs: Seq<SubtitleText>,
    video: Seq<char>,
    items: &Vec<DirItem>,
) -> bool {
    match path::file_stem(video) {
        Some(stem) => are_sidecars_of(subs, stem, items),
        None => subs.len() == 0,
    }
}

/// The ranking of items by path.
pub open spec fn by_path(items: &Vec<DirItem>) -> ByPath<'_> {
    ByPath { items }
}

/// The directory in which a video's subtitle files are looked for.
pub fn subtitle_dir(video: &str) -> (r: Option<String>)
    ensures
        text::opt_text(r) == subtitle_folder(video@),
{
    match path::file_stem_of(video) {
        Some(_) => match path::parent_of(video) {
            Some(d) => {
                if d.as_str().is_empty() {
                    Some(".".to_owned())
                } else {
                    Some(d)
                }
            },
            None => Some(".".to_owned()),
        },
        None => None,
    }
}

fn language_in(suffix: &str) -> (r: Option<String>)
    ensures
        text::opt_text(r) == language_of(suffix@),
{
    let chars = text::chars_of(suffix);
    let end: usize = text::find_next(&chars, '.', 0);
    let ghost first = suffix@.take(end as int);
    if end != 2 && end != 3 {
        return None;
    }
    let mut i: usize = 0;
    while i < end
        invariant
            chars@ == suffix@,
            i <= end <= chars@.len(),
            first == suffix@.take(end as int),
            end == text::next_at(suffix@, '.', 0),
            forall|k: int| 0 <= k < i ==> text::is_letter(#[trigger] first[k]),
        decreases end - i,
    {
        let c = chars[i];
        if !(('a' <= c && c <= 'z') || ('A' <= c && c <= 'Z')) {
            assert(!text::is_letter(first[i as int]));
            return None;
        }
        i += 1;
    }
    let code = text::string_of(&chars, 0, end);
    assert(code@ =~= first);
    Some(text::to_lower(code.as_str()))
}

fn as_sidecar(stem: &str, p: &str, is_file: bool) -> (r: Option<SidecarSubtitle>)
    ensures
        match r {
            Some(s) => sidecar_for(stem@, p@, is_file) == Some(s@),
            None => sidecar_for(stem@, p@, is_file) is None,
        },
{
    if !is_file {
        return None;
    }
    match path::extension_of(p) {
        Some(e) => {
            let lower = text::to_lower(e.as_str());
            if !text::same(lower.as_str(), "srt") {
                return None;
            }
        },
        None => {
            return None;
        },
    }
    match path::file_stem_of(p) {
        Some(own) => {
            if text::same(own.as_str(), stem) {
                return Some(SidecarSubtitle { path: p.to_owned(), language: None });
            }
            let head = text::cat(stem, ".");
            if text::has_head(own.as_str(), head.as_str()) {
                let chars = text::chars_of(own.as_str());
                let cut: usize = text::chars_of(head.as_str()).len();
                let suffix = text::string_of(&chars, cut, chars.len());
                proof {
                    reveal_strlit(".");
                    assert(cut == stem@.len() + 1);
                    assert(suffix@ =~= own@.skip(stem@.len() as int + 1));
                }
                return Some(
                    SidecarSubtitle {
                        path: p.to_owned(),
                        language: language_in(suffix.as_str()),
                    },
                );
            }
            None
        },
        None => None,
    }
}

/// Find the `.srt` files of `video` among what is in its directory, ordered by
/// path: files whose stem either matches the video stem exactly (e.g.
/// `movie.srt` next to `movie.mp4`) or starts with `<stem>.` (e.g.
/// `movie.en.srt`, `movie.eng.srt`). When a 2- or 3-letter ASCII language code
/// follows the stem, it's returned as `language`.
pub fn discover_subtitles(video: &str, items: &Vec<DirItem>) -> (r: Vec<SidecarSubtitle>)
    ensures
        are_sidecars(sidecar_texts(r@), video@, items),
{
    let mut out: Vec<SidecarSubtitle> = Vec::new();
    let stem = match path::file_stem_of(video) {
        Some(s) => s,
        None => {
            return out;
        },
    };
    let ghost marks = sidecar_marks(stem@, items@);
    let mut keep: Vec<bool> = Vec::new();
    let mut i: usize = 0;
    while i < items.len()
        invariant
            i <= items@.len(),
            marks == sidecar_marks(stem@, items@),
            keep@ == marks.take(i as int),
        decreases items@.len() - i,
    {
        let found = as_sidecar(stem.as_str(), items[i].path.as_str(), items[i].is_file);
        let is_one: bool = match found {
            Some(_) => true,
            None => false,
        };
        keep.push(is_one);
        assert(marks.take(i + 1) =~= marks.take(i as int).push(marks[i as int]));
        i += 1;
    }
    assert(marks.take(i as int) =~= marks);
    let ranking = ByPath { items };
    let order = order::stable_order(&keep, &ranking);
    let ghost wanted = picked(stem@, items@, order@);
    let mut k: usize = 0;
    while k < order.len()
        invariant
            k <= order@.len() == wanted.len(),
            marks == sidecar_marks(stem@, items@),
            ranking.items == items,
            order::is_stable_order(order@, marks, &ranking),
            wanted == picked(stem@, items@, order@),
            sidecar_texts(out@) == wanted.take(k as int),
        decreases order@.len() - k,
    {
        let at: usize = order[k];
        assert(marks[at as int]);
        match as_sidecar(stem.as_str(), items[at].path.as_str(), items[at].is_file) {
            Some(s) => {
                let ghost before = out@;
                out.push(s);
                proof {
                    assert(wanted.take(k + 1) =~= wanted.take(k as int).push(wanted[k as int]));
                    assert(sidecar_texts(out@) =~= sidecar_texts(before).push(s@));
                }
            },
            None => {},
        }
        k += 1;
    }
    proof {
        assert(wanted.take(k as int) =~= wanted);
        assert(sidecars_in_order(order@, sidecar_texts(out@), stem@, items));
        assert(are_sidecars_of(sidecar_texts(out@), stem@, items));
    }
    out
}

// -------------------------------------------------------------------- laws --

/// A text with its capitals folded, cut in two, is its parts folded.
proof fn lemma_lower_concat(a: Seq<char>, b: Seq<char>)
    ensures
        text::lower(a + b) == text::lower(a) + text::lower(b),
{
    assert(text::lower(a + b) =~= text::lower(a) + text::lower(b));
}

/// What the Web profile writes, next to its source or under an output root, is
/// never taken for a source.
pub proof fn law_web_outputs_are_no_sources(
    p: Seq<char>,
    input: Seq<char>,
    entries: Seq<WalkEntry>,
    recursive: bool,
    i: int,
)
    requires
        path::file_stem(input) is Some,
        path::file_name(p) == Some(output::web_name(input)),
        0 <= i < entries.len(),
        entries[i].path@ == p,
    ensures
        is_web_copy(p),
        !is_source(entries, recursive, i),
{
    reveal_strlit(".web.mp4");
    let n = output::web_name(input);
    let stem = path::file_stem(input)->0;
    lemma_lower_concat(stem, ".web.mp4"@);
    assert(text::lower(".web.mp4"@) =~= ".web.mp4"@);
    let l = text::lower(n);
    assert(l.subrange(l.len() - 8, l.len() as int) =~= ".web.mp4"@);
}

/// What the HLS profile writes, next to its source or under an output root, is
/// a bundle directory, and nothing in it is taken for a source.
pub proof fn law_bundle_contents_are_no_sources(
    bundle: Seq<char>,
    input: Seq<char>,
    entries: Seq<WalkEntry>,
    recursive: bool,
    j: int,
    i: int,
)
    requires
        path::file_stem(input) is Some,
        path::file_name(bundle) == Some(output::hls_name(input)),
        0 <= j < entries.len(),
        entries[j].path@ == bundle,
        entries[j].is_dir,
        0 <= i < entries.len(),
        lies_in(entries[i].path@, bundle),
    ensures
        is_bundle(bundle, true),
        !is_source(entries, recursive, i),
{
    reveal_strlit(".hls");
    reveal_strlit("hls");
    let n = output::hls_name(input);
    let stem = path::file_stem(input)->0;
    let name = path::file_name(input)->0;
    path::lemma_file_name(input);
    path::lemma_stem(name);
    assert(n =~= stem + ".hls"@);
    text::lemma_last_at_is(n, '.', stem.len() as int);
    assert(n.skip(stem.len() as int + 1) =~= "hls"@);
    assert(text::lower("hls"@) =~= "hls"@);
    assert(is_bundle(entries[j].path@, entries[j].is_dir));
}

/// The HLS bundle of a video is not the video itself.
pub proof fn law_bundle_is_not_its_source(input: Seq<char>)
    requires
        has_video_extension(input),
    ensures
        output::beside(input, output::hls_name(input)) != input,
{
    let b = output::beside(input, output::hls_name(input));
    output::law_hls_output_is_sibling(input);
    reveal_strlit(".hls");
    reveal_strlit("hls");
    let n = output::hls_name(input);
    let stem = path::file_stem(input)->0;
    path::lemma_file_name(input);
    path::lemma_stem(path::file_name(input)->0);
    assert(n =~= stem + ".hls"@);
    text::lemma_last_at_is(n, '.', stem.len() as int);
    assert(n.skip(stem.len() as int + 1) =~= "hls"@);
    assert(text::lower("hls"@) =~= "hls"@);
    if b == input {
        reveal_strlit("mkv");
        reveal_strlit("mp4");
        reveal_strlit("avi");
        reveal_strlit("mov");
        reveal_strlit("wmv");
        reveal_strlit("flv");
        reveal_strlit("webm");
        reveal_strlit("m4v");
        reveal_strlit("ts");
        reveal_strlit("mpg");
        reveal_strlit("mpeg");
        reveal_strlit("m2ts");
        let k = choose|k: int| 0 <= k < 12 && video_extensions()[k] == "hls"@;
        assert(video_extensions()[k].len() == 3 && video_extensions()[k][0] == 'h');
    }
}

/// Every source is met on the walk, and each source that is met is found.
pub proof fn law_sources_are_found(entries: Seq<WalkEntry>, recursive: bool, k: nat, p: Seq<char>)
    requires
        k <= entries.len(),
    ensures
        sources_among(entries, recursive, k).contains(p) <==> exists|i: int|
            0 <= i < k && #[trigger] is_source(entries, recursive, i) && entries[i].path@ == p,
    decreases k,
{
    let all = sources_among(entries, recursive, k);
    if k > 0 {
        let before = sources_among(entries, recursive, (k - 1) as nat);
        law_sources_are_found(entries, recursive, (k - 1) as nat, p);
        if all.contains(p) {
            let m = choose|m: int| 0 <= m < all.len() && all[m] == p;
            if m < before.len() {
                assert(before[m] == p);
                assert(before.contains(p));
            } else {
                assert(is_source(entries, recursive, k - 1));
            }
        }
        if exists|i: int|
            0 <= i < k && #[trigger] is_source(entries, recursive, i) && entries[i].path@ == p {
            let i = choose|i: int|
                0 <= i < k && #[trigger] is_source(entries, recursive, i) && entries[i].path@ == p;
            if i < k - 1 {
                assert(before.contains(p));
                let m = choose|m: int| 0 <= m < before.len() && before[m] == p;
                assert(all[m] == p);
            } else {
                assert(all[before.len() as int] == p);
            }
        }
    }
}

/// The subtitle files of a video are determined by what is in its directory.
pub proof fn law_sidecars_are_unique(
    a: Seq<SubtitleText>,
    b: Seq<SubtitleText>,
    video: Seq<char>,
    items: &Vec<DirItem>,
)
    requires
        are_sidecars(a, video, items),
        are_sidecars(b, video, items),
    ensures
        a == b,
{
    match path::file_stem(video) {
        Some(stem) => {
            let marks = sidecar_marks(stem, items@);
            let x = choose|order: Seq<usize>| #[trigger] sidecars_in_order(order, a, stem, items);
            let y = choose|order: Seq<usize>| #[trigger] sidecars_in_order(order, b, stem, items);
            order::law_stable_order_is_unique(x, y, marks, &by_path(items));
        },
        None => {
            assert(a =~= b);
        },
    }
}

/// The extensions of videos, by the letters that tell them apart.
proof fn lemma_extensions()
    ensures
        "mkv"@.len() == 3 && "mkv"@[0] == 'm' && "mkv"@[1] == 'k' && "mkv"@[2] == 'v',
        "mp4"@.len() == 3 && "mp4"@[0] == 'm' && "mp4"@[1] == 'p' && "mp4"@[2] == '4',
        "avi"@.len() == 3 && "avi"@[0] == 'a' && "avi"@[1] == 'v' && "avi"@[2] == 'i',
        "mov"@.len() == 3 && "mov"@[0] == 'm' && "mov"@[1] == 'o' && "mov"@[2] == 'v',
        "wmv"@.len() == 3 && "wmv"@[0] == 'w' && "wmv"@[1] == 'm' && "wmv"@[2] == 'v',
        "flv"@.len() == 3 && "flv"@[0] == 'f' && "flv"@[1] == 'l' && "flv"@[2] == 'v',
        "webm"@.len() == 4 && "webm"@[0] == 'w' && "webm"@[1] == 'e' && "webm"@[2] == 'b' && "webm"@[3] == 'm',
        "m4v"@.len() == 3 && "m4v"@[0] == 'm' && "m4v"@[1] == '4' && "m4v"@[2] == 'v',
        "ts"@.len() == 2 && "ts"@[0] == 't' && "ts"@[1] == 's',
        "mpg"@.len() == 3 && "mpg"@[0] == 'm' && "mpg"@[1] == 'p' && "mpg"@[2] == 'g',
        "mpeg"@.len() == 4 && "mpeg"@[0] == 'm' && "mpeg"@[1] == 'p' && "mpeg"@[2] == 'e' && "mpeg"@[3] == 'g',
        "m2ts"@.len() == 4 && "m2ts"@[0] == 'm' && "m2ts"@[1] == '2' && "m2ts"@[2] == 't' && "m2ts"@[3] == 's',
{
    reveal_strlit("mkv");
    reveal_strlit("mp4");
    reveal_strlit("avi");
    reveal_strlit("mov");
    reveal_strlit("wmv");
    reveal_strlit("flv");
    reveal_strlit("webm");
    reveal_strlit("m4v");
    reveal_strlit("ts");
    reveal_strlit("mpg");
    reveal_strlit("mpeg");
    reveal_strlit("m2ts");
}

/// Whether an extension in lower case is that of a video.
pub open spec fn names_video(e: Seq<char>) -> bool {
    ||| e == "mkv"@
    ||| e == "mp4"@
    ||| e == "avi"@
    ||| e == "mov"@
    ||| e == "wmv"@
    ||| e == "flv"@
    ||| e == "webm"@
    ||| e == "m4v"@
    ||| e == "ts"@
    ||| e == "mpg"@
    ||| e == "mpeg"@
    ||| e == "m2ts"@
}

/// A path is taken for a video by its extension alone, whatever its capitals: any
/// of twelve, and no other.
pub proof fn law_videos_go_by_their_extension(p: Seq<char>)
    ensures
        has_video_extension(p) <==> (path::extension(p) matches Some(e) && names_video(
            text::lower(e),
        )),
        video_extensions().len() == 12,
        video_extensions().no_duplicates(),
        forall|e: Seq<char>| #[trigger] video_extensions().contains(e) <==> names_video(e),
{
    let all = video_extensions();
    lemma_extensions();
    assert(all.len() == 12);
    assert forall|i: int, j: int| 0 <= i < j < 12 implies all[i] != all[j] by {}
    assert forall|e: Seq<char>| #[trigger] all.contains(e) <==> names_video(e) by {
        if all.contains(e) {
            let i = choose|i: int| 0 <= i < all.len() && all[i] == e;
            assert(names_video(all[i]));
        }
        if names_video(e) {
            assert(all[0] == "mkv"@);
            assert(all[1] == "mp4"@);
            assert(all[2] == "avi"@);
            assert(all[3] == "mov"@);
            assert(all[4] == "wmv"@);
            assert(all[5] == "flv"@);
            assert(all[6] == "webm"@);
            assert(all[7] == "m4v"@);
            assert(all[8] == "ts"@);
            assert(all[9] == "mpg"@);
            assert(all[10] == "mpeg"@);
            assert(all[11] == "m2ts"@);
        }
    }
}

/// Whether a directory is an HLS bundle: its extension is `hls`, whatever its
/// capitals.
pub open spec fn is_bundle_root(e: WalkEntry) -> bool {
    e.is_dir && (path::extension(e.path@) matches Some(x) && text::lower(x) == "hls"@)
}

/// Whether what a walk met is a video that no earlier run has written: a regular
/// file with a video's extension, which is not named like a browser-friendly
/// copy, lies in no HLS bundle that the walk met and, where the scan does not
/// descend, not below the directory itself.
pub open spec fn is_fresh_video(entries: Seq<WalkEntry>, recursive: bool, i: int) -> bool {
    let p = entries[i].path@;
    &&& entries[i].is_file
    &&& path::extension(p) matches Some(e) && names_video(text::lower(e))
    &&& !(path::file_name(p) matches Some(n) && text::ends_with(text::lower(n), ".web.mp4"@))
    &&& recursive || entries[i].depth == 0 || entries[i].depth == 1
    &&& forall|j: int|
        0 <= j < entries.len() && is_bundle_root(#[trigger] entries[j]) ==> path::stripped(
            p,
            entries[j].path@,
        ) is None
}

proof fn lemma_fresh_videos(entries: Seq<WalkEntry>, recursive: bool, i: int)
    requires
        0 <= i < entries.len(),
    ensures
        is_fresh_video(entries, recursive, i) == is_source(entries, recursive, i),
{
    let p = entries[i].path@;
    law_videos_go_by_their_extension(p);
    if is_fresh_video(entries, recursive, i) {
        assert forall|j: int|
            0 <= j < entries.len() && is_bundle(
                #[trigger] entries[j].path@,
                entries[j].is_dir,
            ) implies !lies_in(p, entries[j].path@) by {
            assert(is_bundle_root(entries[j]));
        }
    }
    if is_source(entries, recursive, i) {
        assert forall|j: int|
            0 <= j < entries.len() && is_bundle_root(#[trigger] entries[j]) implies path::stripped(
            p,
            entries[j].path@,
        ) is None by {
            assert(is_bundle(entries[j].path@, entries[j].is_dir));
        }
    }
}

/// A scan of a directory finds the videos that no earlier run has written, and
/// nothing else. A scan of a file finds the file where it is a video.
pub proof fn law_what_a_scan_finds(
    root: Seq<char>,
    recursive: bool,
    entries: Seq<WalkEntry>,
    p: Seq<char>,
)
    ensures
        videos_under(root, false, recursive, entries).contains(p) <==> exists|i: int|
            0 <= i < entries.len() && #[trigger] is_fresh_video(entries, recursive, i)
                && entries[i].path@ == p,
        videos_under(root, true, recursive, entries) == if path::extension(root) matches Some(e)
            && names_video(text::lower(e)) {
            seq![root]
        } else {
            Seq::empty()
        },
{
    law_videos_go_by_their_extension(root);
    law_sources_are_found(entries, recursive, entries.len(), p);
    if videos_under(root, false, recursive, entries).contains(p) {
        let i = choose|i: int|
            0 <= i < entries.len() && #[trigger] is_source(entries, recursive, i)
                && entries[i].path@ == p;
        lemma_fresh_videos(entries, recursive, i);
        assert(is_fresh_video(entries, recursive, i));
    }
    if exists|i: int|
        0 <= i < entries.len() && #[trigger] is_fresh_video(entries, recursive, i)
            && entries[i].path@ == p {
        let i = choose|i: int|
            0 <= i < entries.len() && #[trigger] is_fresh_video(entries, recursive, i)
                && entries[i].path@ == p;
        lemma_fresh_videos(entries, recursive, i);
        assert(is_source(entries, recursive, i));
    }
}

/// What a scan finds comes in the order of the walk, each file as often as the
/// walk met it.
pub proof fn law_sources_come_in_order(entries: Seq<WalkEntry>, recursive: bool, k: nat) -> (at: Seq<
    int,
>)
    requires
        k <= entries.len(),
    ensures
        at.len() == sources_among(entries, recursive, k).len(),
        forall|m: int|
            0 <= m < at.len() ==> 0 <= #[trigger] at[m] < k && is_source(entries, recursive, at[m])
                && sources_among(entries, recursive, k)[m] == entries[at[m]].path@,
        forall|m: int, n: int| 0 <= m < n < at.len() ==> at[m] < at[n],
        forall|i: int|
            0 <= i < k && #[trigger] is_source(entries, recursive, i) ==> at.contains(i),
    decreases k,
{
    if k == 0 {
        Seq::empty()
    } else {
        let before = law_sources_come_in_order(entries, recursive, (k - 1) as nat);
        if is_source(entries, recursive, k - 1) {
            let at = before.push(k - 1);
            assert forall|i: int| 0 <= i < k && #[trigger] is_source(
                entries,
                recursive,
                i,
            ) implies at.contains(i) by {
                if i < k - 1 {
                    assert(before.contains(i));
                    let m = choose|m: int| 0 <= m < before.len() && before[m] == i;
                    assert(at[m] == i);
                } else {
                    assert(at[before.len() as int] == i);
                }
            }
            at
        } else {
            before
        }
    }
}

/// A subtitle file belongs to a video when it is an `.srt` file whose stem is the
/// video's, or begins with it and a dot; it is taken as it is.
pub proof fn law_which_subtitles_belong(stem: Seq<char>, p: Seq<char>, is_file: bool)
    ensures
        sidecar_for(stem, p, is_file) is Some <==> {
            &&& is_file
            &&& path::extension(p) matches Some(e) && text::lower(e) == "srt"@
            &&& path::file_stem(p) == Some(stem) || text::starts_with(
                path::file_stem(p)->0,
                stem + "."@,
            )
        },
        sidecar_for(stem, p, is_file) matches Some(s) ==> {
            &&& s.path == p
            &&& path::file_stem(p) == Some(stem) ==> s.language is None
        },
{
    if path::extension(p) is Some {
        assert(path::file_name(p) is Some);
        assert(path::file_stem(p) is Some);
    }
    if path::file_stem(p) == Some(stem) {
        reveal_strlit(".");
        assert((stem + "."@).len() > stem.len());
    }
}

/// The language of a subtitle file is the code of two or three letters that stands
/// right behind the video's stem, in lower case, whether or not more follows; a
/// file without such a code there has none.
pub proof fn law_language_stands_behind_the_stem(code: Seq<char>, rest: Seq<char>)
    requires
        forall|i: int| 0 <= i < code.len() ==> #[trigger] code[i] != '.',
    ensures
        ({
            let expected = if (code.len() == 2 || code.len() == 3) && (forall|i: int|
                0 <= i < code.len() ==> ('a' <= #[trigger] code[i] && code[i] <= 'z') || ('A'
                    <= code[i] && code[i] <= 'Z')) {
                Some(text::lower(code))
            } else {
                None
            };
            &&& language_of(code) == expected
            &&& language_of(code + "."@ + rest) == expected
        }),
{
    reveal_strlit(".");
    let s = code + "."@ + rest;
    text::lemma_next_at_is(code, '.', 0, code.len() as int);
    text::lemma_next_at_is(s, '.', 0, code.len() as int);
    assert(code.take(code.len() as int) =~= code);
    assert(s.take(code.len() as int) =~= code);
    assert(forall|i: int| 0 <= i < code.len() ==> (text::is_letter(#[trigger] code[i]) <==> (('a'
        <= code[i] && code[i] <= 'z') || ('A' <= code[i] && code[i] <= 'Z'))));
}

/// The subtitle files of a video are all those next to it that belong to it, in the
/// order of their paths.
pub proof fn law_subtitles_are_complete_and_sorted(
    subs: Seq<SubtitleText>,
    video: Seq<char>,
    items: &Vec<DirItem>,
)
    requires
        are_sidecars(subs, video, items),
        path::file_stem(video) is Some,
        items@.len() <= usize::MAX,
    ensures
        forall|i: int|
            0 <= i < items@.len() && (sidecar_for(
                path::file_stem(video)->0,
                (#[trigger] items@[i]).path@,
                items@[i].is_file,
            ) is Some) ==> subs.contains(
                sidecar_for(path::file_stem(video)->0, items@[i].path@, items@[i].is_file)->0,
            ),
        forall|a: int, b: int|
            0 <= a < b < subs.len() ==> !path::path_before(
                (#[trigger] subs[b]).path,
                (#[trigger] subs[a]).path,
            ),
        subs.len() <= items@.len(),
{
    let stem = path::file_stem(video)->0;
    let marks = sidecar_marks(stem, items@);
    let order = choose|order: Seq<usize>| #[trigger] sidecars_in_order(order, subs, stem, items);
    let ranking = by_path(items);
    order::law_order_is_sorted_and_complete(order, marks, &ranking);
    assert(subs.len() == order.len());
    assert forall|k: int| 0 <= k < subs.len() implies #[trigger] subs[k].path
        == items@[order[k] as int].path@ && order[k] < items@.len() by {
        assert(marks[order[k] as int]);
        assert(sidecar_for(
            stem,
            items@[order[k] as int].path@,
            items@[order[k] as int].is_file,
        ) is Some);
        assert(subs[k] == sidecar_for(
            stem,
            items@[order[k] as int].path@,
            items@[order[k] as int].is_file,
        )->0);
    }
    assert forall|a: int, b: int| 0 <= a < b < subs.len() implies !path::path_before(
        (#[trigger] subs[b]).path,
        (#[trigger] subs[a]).path,
    ) by {
        assert(!ranking.before(order[b] as int, order[a] as int));
    }
    assert forall|i: int|
        0 <= i < items@.len() && (sidecar_for(
            stem,
            (#[trigger] items@[i]).path@,
            items@[i].is_file,
        ) is Some) implies subs.contains(
        sidecar_for(stem, items@[i].path@, items@[i].is_file)->0,
    ) by {
        assert(marks[i]);
        assert(order.contains(i as usize));
        let k = choose|k: int| 0 <= k < order.len() && order[k] == i as usize;
        assert(subs[k] == sidecar_for(stem, items@[i].path@, items@[i].is_file)->0);
    }
    let all = vstd::set_lib::set_int_range(0, items@.len() as int);
    vstd::set_lib::lemma_int_range(0, items@.len() as int);
    let seen = order.map_values(|k: usize| k as int);
    assert(seen.no_duplicates()) by {
        assert forall|a: int, b: int| 0 <= a < b < seen.len() implies seen[a] != seen[b] by {
            assert(order[a] != order[b]);
        }
    }
    seen.unique_seq_to_set();
    assert(seen.to_set().subset_of(all)) by {
        assert forall|x: int| seen.to_set().contains(x) implies all.contains(x) by {
            let k = choose|k: int| 0 <= k < seen.len() && seen[k] == x;
            assert(0 <= order[k] < marks.len());
        }
    }
    vstd::set_lib::lemma_len_subset(seen.to_set(), all);
}

/// Subtitle files are looked for where the video lies; in the current directory for
/// a bare name.
pub proof fn law_subtitles_lie_next_to_the_video(video: Seq<char>)
    requires
        path::file_stem(video) is Some,
    ensures
        path::parent(video) matches Some(d) && d.len() > 0 ==> subtitle_folder(video)
            == path::parent(video),
        path::parent(video) matches Some(d) && d.len() == 0 ==> subtitle_folder(video) == Some("."@),
{
}

} // verus!
