//! Where outputs go, and whether a directory can take them.

use vstd::prelude::*;
use crate::container;
use crate::container::Container;
use crate::path;
use crate::text;
use crate::units;

verus! {

// ------------------------------------------------------------ output paths --

/// `name` next to `p`, in the current directory where `p` has no directory.
pub open spec fn beside(p: Seq<char>, name: Seq<char>) -> Seq<char> {
    match path::parent(p) {
        Some(d) => if d.len() > 0 {
            path::joined_path(d, name)
        } else {
            name
        },
        None => name,
    }
}

/// The output for a source where none is given.
pub open spec fn default_path(source: Seq<char>, is_file: bool, c: Container) -> Seq<char> {
    if is_file {
        match path::file_stem(source) {
            Some(stem) => path::with_file_name(
                source,
                stem + "-converted."@ + container::container_name(c),
            ),
            None => source,
        }
    } else {
        match path::file_name(source) {
            Some(name) => beside(source, name + "-converted"@),
            None => path::joined_path(source, "converted"@),
        }
    }
}

/// The stem of `p` with a tail behind it, or `bare` where `p` has no stem.
pub open spec fn tagged(p: Seq<char>, tail: Seq<char>, bare: Seq<char>) -> Seq<char> {
    match path::file_stem(p) {
        Some(stem) => stem + tail,
        None => bare,
    }
}

/// The file name of a browser-friendly copy.
pub open spec fn web_name(p: Seq<char>) -> Seq<char> {
    tagged(p, ".web.mp4"@, "web.mp4"@)
}

/// The directory name of an HLS bundle.
pub open spec fn hls_name(p: Seq<char>) -> Seq<char> {
    tagged(p, ".hls"@, "hls"@)
}

/// `name` in the place under `root` that `rel` has under its own root.
pub open spec fn mirrored(root: Seq<char>, rel: Seq<char>, name: Seq<char>) -> Seq<char> {
    path::joined_path(
        path::joined_path(
            root,
            match path::parent(rel) {
                Some(d) => d,
                None => ""@,
            },
        ),
        name,
    )
}

/// The re-encoded file for `rel` under `root`.
pub open spec fn encoded_path(root: Seq<char>, rel: Seq<char>, c: Container) -> Seq<char> {
    path::with_extension(path::joined_path(root, rel), container::container_name(c))
}

/// Whether an output path names a file: what exists decides, and else whether
/// it has an extension and no slash at its end.
pub open spec fn names_file(p: Seq<char>, is_dir: bool, is_file: bool) -> bool {
    if is_dir {
        false
    } else if is_file {
        true
    } else {
        !(p.len() > 0 && p.last() == '/') && path::extension(p) is Some
    }
}

/// Default output path when the user doesn't provide one.
///
/// For a directory source, it returns a sibling directory with `-converted`
/// appended. For a single file source, it returns a file in the same directory
/// with `-converted` appended to the stem and the target container extension.
///
/// Examples:
/// * `/movies/library` -> `/movies/library-converted`
/// * `/movies/library/movie.mkv` -> `/movies/library/movie-converted.mkv` (if container is Mkv)
/// * `library` -> `library-converted`
///
/// Falls back to `<source>/converted` when the source has no usable file name
/// (e.g. `/`, `.`). `is_file` is whether the source is an existing file.
pub fn default_output(source: &str, is_file: bool, container: Container) -> (r: String)
    ensures
        r@ == default_path(source@, is_file, container),
{
    if is_file {
        match path::file_stem_of(source) {
            Some(stem) => {
                let name = text::cat3(stem.as_str(), "-converted.", container.extension());
                path::replace_file_name(source, name.as_str())
            },
            None => source.to_owned(),
        }
    } else {
        match path::file_name_of(source) {
            Some(name) => {
                let new_name = text::cat(name.as_str(), "-converted");
                put_beside(source, new_name.as_str())
            },
            None => path::join_path(source, "converted"),
        }
    }
}

fn put_beside(p: &str, name: &str) -> (r: String)
    ensures
        r@ == beside(p@, name@),
{
    match path::parent_of(p) {
        Some(d) => {
            if d.as_str().is_empty() {
                name.to_owned()
            } else {
                path::join_path(d.as_str(), name)
            }
        },
        None => name.to_owned(),
    }
}

fn put_under(root: &str, rel: &str, name: &str) -> (r: String)
    ensures
        r@ == mirrored(root@, rel@, name@),
{
    let folder = match path::parent_of(rel) {
        Some(d) => path::join_path(root, d.as_str()),
        None => path::join_path(root, ""),
    };
    path::join_path(folder.as_str(), name)
}

fn tag(p: &str, tail: &str, bare: &str) -> (r: String)
    ensures
        r@ == tagged(p@, tail@, bare@),
{
    match path::file_stem_of(p) {
        Some(stem) => text::cat(stem.as_str(), tail),
        None => bare.to_owned(),
    }
}

/// Web-friendly sibling path: `<input-dir>/<input-stem>.web.mp4`.
///
/// Only the source's final extension is dropped; intermediate dots in the stem
/// are preserved verbatim. Inputs without a file stem (e.g. `/`, `.`) fall back
/// to `web.mp4` in the input's parent directory if there is one, else in the
/// current directory.
pub fn web_output_path(input: &str) -> (r: String)
    ensures
        r@ == beside(input@, web_name(input@)),
{
    let name = tag(input, ".web.mp4", "web.mp4");
    put_beside(input, name.as_str())
}

/// HLS-bundle output path: `<input-dir>/<input-stem>.hls` (a directory).
///
/// Same naming rule as [`web_output_path`].
pub fn hls_output_path(input: &str) -> (r: String)
    ensures
        r@ == beside(input@, hls_name(input@)),
{
    let name = tag(input, ".hls", "hls");
    put_beside(input, name.as_str())
}

/// The HLS bundle of `rel` in the tree under `root` that mirrors the sources.
pub fn hls_output_under_root(root: &str, rel: &str) -> (r: String)
    ensures
        r@ == mirrored(root@, rel@, hls_name(rel@)),
{
    let name = tag(rel, ".hls", "hls");
    put_under(root, rel, name.as_str())
}

/// The browser-friendly copy of `rel` in the tree under `root` that mirrors the
/// sources.
pub fn web_output_under_root(root: &str, rel: &str) -> (r: String)
    ensures
        r@ == mirrored(root@, rel@, web_name(rel@)),
{
    let name = tag(rel, ".web.mp4", "web.mp4");
    put_under(root, rel, name.as_str())
}

/// The re-encoded file of `rel` in the tree under `output_root` that mirrors
/// the sources, with the container's extension.
pub fn output_path(output_root: &str, rel: &str, container: Container) -> (r: String)
    ensures
        r@ == encoded_path(output_root@, rel@, container),
{
    let joined = path::join_path(output_root, rel);
    path::replace_extension(joined.as_str(), container.extension())
}

/// Whether an output path names a file rather than a directory. `is_dir` and
/// `is_file` are whether it exists as one.
pub fn output_is_filepath(p: &str, is_dir: bool, is_file: bool) -> (r: bool)
    ensures
        r == names_file(p@, is_dir, is_file),
{
    if is_dir {
        return false;
    }
    if is_file {
        return true;
    }
    let chars = text::chars_of(p);
    if chars.len() > 0 && chars[chars.len() - 1] == '/' {
        return false;
    }
    match path::extension_of(p) {
        Some(_) => true,
        None => false,
    }
}

// -------------------------------------------------------------- validation --

/// Result of validating an output directory: any non-fatal warnings the user
/// should see.
#[derive(Debug)]
pub struct OutputValidation {
    pub warnings: Vec<String>,
}

impl Default for OutputValidation {
    fn default() -> (r: Self)
        ensures
            r.warnings@.len() == 0,
    {
        OutputValidation { warnings: Vec::new() }
    }
}

/// Why a path cannot be used as an output directory. What the system said about
/// it comes along.
#[derive(Debug)]
pub enum OutputError {
    NotDirectory,
    CannotCreate(String),
    NotWritable(String),
}

/// The reason in words.
pub open spec fn output_error_text(e: OutputError, output: Seq<char>) -> Seq<char> {
    match e {
        OutputError::NotDirectory => "output path exists and is not a directory: "@ + output,
        OutputError::CannotCreate(_) => "could not create output directory "@ + output,
        OutputError::NotWritable(_) => "output directory is not writable: "@ + output,
    }
}

/// The reason in words, with what the system said about it.
pub open spec fn output_error_chain(e: OutputError, output: Seq<char>) -> Seq<char> {
    match e {
        OutputError::NotDirectory => output_error_text(e, output),
        OutputError::CannotCreate(cause) => output_error_text(e, output) + ": "@ + cause@,
        OutputError::NotWritable(cause) => output_error_text(e, output) + ": "@ + cause@,
    }
}

impl OutputError {
    /// The reason in words.
    pub fn message(&self, output: &str) -> (r: String)
        ensures
            r@ == output_error_text(*self, output@),
    {
        match self {
            OutputError::NotDirectory => text::cat(
                "output path exists and is not a directory: ",
                output,
            ),
            OutputError::CannotCreate(_) => text::cat("could not create output directory ", output),
            OutputError::NotWritable(_) => text::cat("output directory is not writable: ", output),
        }
    }

    /// The reason in words, with what the system said about it.
    pub fn full_message(&self, output: &str) -> (r: String)
        ensures
            r@ == output_error_chain(*self, output@),
    {
        let head = self.message(output);
        match self {
            OutputError::NotDirectory => head,
            OutputError::CannotCreate(cause) => text::cat3(head.as_str(), ": ", cause.as_str()),
            OutputError::NotWritable(cause) => text::cat3(head.as_str(), ": ", cause.as_str()),
        }
    }
}

/// What has been learnt of the output directory.
#[derive(Debug)]
pub enum OutputEvent {
    /// Whether the path exists, and whether it is a directory.
    Found { exists: bool, is_dir: bool },
    /// How making the directory went.
    Created(Result<(), String>),
    /// How making the probe file went.
    Probed(Result<(), String>),
    /// The free space on its filesystem.
    Measured(Result<u64, String>),
}

/// What is to be done next with the output directory.
#[derive(Debug)]
pub enum OutputStep {
    /// Make the directory.
    Create,
    /// Make this file, which must not exist yet, and remove it again.
    Probe(String),
    /// Query the free space.
    Measure,
    /// Give up.
    Refuse(OutputError),
    /// Go on.
    Accept(OutputValidation),
}

/// The file whose making shows that the directory is writable.
pub open spec fn probe_path(output: Seq<char>, process_id: nat) -> Seq<char> {
    path::joined_path(output, ".media-convert-write-probe-"@ + text::decimal(process_id))
}

/// The warning that the sources are larger than the free space.
pub open spec fn low_space_text(available: nat, expected: nat) -> Seq<char> {
    "Output filesystem has only "@ + units::bytes_text(available)
        + " free, but source files total "@ + units::bytes_text(expected)
        + ". Re-encoding usually shrinks files, but this could be tight."@
}

/// The warnings about the free space.
pub open spec fn space_warnings(
    output: Seq<char>,
    expected: Option<u64>,
    available: Result<u64, String>,
) -> Seq<Seq<char>> {
    match available {
        Ok(a) => match expected {
            Some(e) => if a < e {
                seq![low_space_text(a as nat, e as nat)]
            } else {
                Seq::empty()
            },
            None => Seq::empty(),
        },
        Err(e) => seq!["Could not query disk space on "@ + output + ": "@ + e@],
    }
}

/// Whether `step` is what follows `event`: a path that exists must be a
/// directory, a missing one is made; then it is probed, and then measured.
pub open spec fn follows(
    step: OutputStep,
    event: OutputEvent,
    output: Seq<char>,
    expected: Option<u64>,
    process_id: nat,
) -> bool {
    match event {
        OutputEvent::Found { exists, is_dir } => if !exists {
            step is Create
        } else if !is_dir {
            step == OutputStep::Refuse(OutputError::NotDirectory)
        } else {
            step matches OutputStep::Probe(p) && p@ == probe_path(output, process_id)
        },
        OutputEvent::Created(made) => match made {
            Ok(_) => step matches OutputStep::Probe(p) && p@ == probe_path(output, process_id),
            Err(e) => step == OutputStep::Refuse(OutputError::CannotCreate(e)),
        },
        OutputEvent::Probed(made) => match made {
            Ok(_) => step is Measure,
            Err(e) => step == OutputStep::Refuse(OutputError::NotWritable(e)),
        },
        OutputEvent::Measured(available) => step matches OutputStep::Accept(v) && text::texts(
            v.warnings@,
        ) == space_warnings(output, expected, available),
    }
}

/// Validate that `output` is usable as an output directory, step by step: each
/// event is answered by what is to be done next.
///
/// 1. Create it if it doesn't exist.
/// 2. Reject paths that exist but aren't a directory.
/// 3. Probe writability by creating and removing a temporary file.
/// 4. If `expected_bytes` is known, warn when free disk space is below it.
pub fn validate_output(
    output: &str,
    expected_bytes: Option<u64>,
    process_id: u32,
    event: OutputEvent,
) -> (r: OutputStep)
    ensures
        follows(r, event, output@, expected_bytes, process_id as nat),
{
    match event {
        OutputEvent::Found { exists, is_dir } => {
            if !exists {
                OutputStep::Create
            } else if !is_dir {
                OutputStep::Refuse(OutputError::NotDirectory)
            } else {
                OutputStep::Probe(probe_file(output, process_id))
            }
        },
        OutputEvent::Created(made) => match made {
            Ok(_) => OutputStep::Probe(probe_file(output, process_id)),
            Err(e) => OutputStep::Refuse(OutputError::CannotCreate(e)),
        },
        OutputEvent::Probed(made) => match made {
            Ok(_) => OutputStep::Measure,
            Err(e) => OutputStep::Refuse(OutputError::NotWritable(e)),
        },
        OutputEvent::Measured(available) => {
            let mut warnings: Vec<String> = Vec::new();
            match available {
                Ok(a) => match expected_bytes {
                    Some(e) => {
                        if a < e {
                            text::push_string(&mut warnings, low_space_warning(a, e));
                        }
                    },
                    None => {},
                },
                Err(e) => {
                    let mut line = text::cat3("Could not query disk space on ", output, ": ");
                    line.append(e.as_str());
                    text::push_string(&mut warnings, line);
                },
            }
            assert(text::texts(warnings@) =~= space_warnings(output@, expected_bytes, available));
            OutputStep::Accept(OutputValidation { warnings })
        },
    }
}

fn probe_file(output: &str, process_id: u32) -> (r: String)
    ensures
        r@ == probe_path(output@, process_id as nat),
{
    let digits = text::decimal_string(process_id as u128);
    let name = text::cat(".media-convert-write-probe-", digits.as_str());
    path::join_path(output, name.as_str())
}

fn low_space_warning(available: u64, expected: u64) -> (r: String)
    ensures
        r@ == low_space_text(available as nat, expected as nat),
{
    let a = units::format_bytes(available);
    let e = units::format_bytes(expected);
    let mut line = text::cat3(
        "Output filesystem has only ",
        a.as_str(),
        " free, but source files total ",
    );
    line.append(e.as_str());
    line.append(". Re-encoding usually shrinks files, but this could be tight.");
    line
}

/// The sum of the known sizes.
pub open spec fn total_size(sizes: Seq<Option<u64>>) -> nat
    decreases sizes.len(),
{
    if sizes.len() == 0 {
        0
    } else {
        total_size(sizes.drop_last()) + match sizes.last() {
            Some(n) => n as nat,
            None => 0,
        }
    }
}

/// Fewer sizes never add up to more.
proof fn lemma_total_grows(sizes: Seq<Option<u64>>, k: int)
    requires
        0 <= k <= sizes.len(),
    ensures
        total_size(sizes.take(k)) <= total_size(sizes),
    decreases sizes.len() - k,
{
    if k < sizes.len() {
        assert(sizes.take(k + 1).drop_last() =~= sizes.take(k));
        lemma_total_grows(sizes, k + 1);
    } else {
        assert(sizes.take(k) =~= sizes);
    }
}

/// Sum the on-disk sizes of files. A file that could not be looked at is `None`
/// and skipped: this is a best-effort estimate for warning the user about disk
/// space, not a precondition.
pub fn sum_file_sizes(sizes: &[Option<u64>]) -> (r: u64)
    requires
        total_size(sizes@) <= u64::MAX,
    ensures
        r == total_size(sizes@),
{
    let mut total: u64 = 0;
    let mut i: usize = 0;
    while i < sizes.len()
        invariant
            i <= sizes@.len(),
            total == total_size(sizes@.take(i as int)),
            total_size(sizes@) <= u64::MAX,
        decreases sizes@.len() - i,
    {
        proof {
            assert(sizes@.take(i + 1).drop_last() =~= sizes@.take(i as int));
            lemma_total_grows(sizes@, i + 1);
        }
        match sizes[i] {
            Some(n) => {
                total = total + n;
            },
            None => {},
        }
        i += 1;
    }
    assert(sizes@.take(i as int) =~= sizes@);
    total
}

// -------------------------------------------------------------------- laws --

/// The steps come to an end: a directory is accepted where it is one or could be
/// made, and could be written to, and refused in every other case. The free
/// space decides on warnings alone.
pub proof fn law_when_an_output_is_accepted(
    output: Seq<char>,
    expected: Option<u64>,
    process_id: nat,
    exists: bool,
    is_dir: bool,
    created: Result<(), String>,
    probed: Result<(), String>,
    measured: Result<u64, String>,
    first: OutputStep,
    second: OutputStep,
    third: OutputStep,
    last: OutputStep,
)
    requires
        follows(first, OutputEvent::Found { exists, is_dir }, output, expected, process_id),
        if first is Create {
            follows(second, OutputEvent::Created(created), output, expected, process_id)
        } else {
            second == first
        },
        if second is Probe {
            follows(third, OutputEvent::Probed(probed), output, expected, process_id)
        } else {
            third == second
        },
        if third is Measure {
            follows(last, OutputEvent::Measured(measured), output, expected, process_id)
        } else {
            last == third
        },
    ensures
        last is Accept <==> (if exists {
            is_dir
        } else {
            created is Ok
        }) && probed is Ok,
        last is Accept || last is Refuse,
        last matches OutputStep::Accept(v) ==> text::texts(v.warnings@) == space_warnings(
            output,
            expected,
            measured,
        ),
{
}

/// A name made of a stem and a tail that begins with a dot can stand as a file
/// name.
proof fn lemma_tagged_is_file_name(p: Seq<char>, tail: Seq<char>, bare: Seq<char>)
    requires
        path::file_stem(p) is Some,
        tail.len() >= 2,
        !tail.contains('/'),
    ensures
        path::is_file_name(tagged(p, tail, bare)),
        path::file_stem(p)->0.len() > 0,
{
    let n = path::file_name(p)->0;
    let stem = path::file_stem(p)->0;
    path::lemma_file_name(p);
    path::lemma_stem(n);
    let t = tagged(p, tail, bare);
    assert forall|i: int| 0 <= i < t.len() implies t[i] != '/' by {
        if i < stem.len() {
            assert(t[i] == n[i]);
            assert(n.contains(n[i]));
        } else {
            assert(tail.contains(tail[i - stem.len()]));
        }
    }
}

/// A name next to a path lies in the same directory.
proof fn lemma_beside(p: Seq<char>, name: Seq<char>)
    requires
        path::file_name(p) is Some,
        path::is_file_name(name),
    ensures
        path::file_name(beside(p, name)) == Some(name),
        path::parent(beside(p, name)) == path::parent(p),
        path::components(beside(p, name)) == path::components(p).drop_last().push(name),
{
    path::lemma_sibling(p, name);
    let d = path::parent(p)->0;
    if d.len() == 0 {
        assert(name[0] != '/') by {
            assert(name.contains(name[0]));
        }
        assert(path::joined_path(d, name) =~= name);
    }
}

/// The browser-friendly copy lies in its source's directory, under the source's
/// stem with `.web.mp4` behind it.
pub proof fn law_web_output_is_sibling(input: Seq<char>)
    requires
        path::file_stem(input) is Some,
    ensures
        path::parent(beside(input, web_name(input))) == path::parent(input),
        path::file_name(beside(input, web_name(input))) == Some(
            path::file_stem(input)->0 + ".web.mp4"@,
        ),
{
    reveal_strlit(".web.mp4");
    lemma_tagged_is_file_name(input, ".web.mp4"@, "web.mp4"@);
    lemma_beside(input, web_name(input));
}

/// The HLS bundle lies in its source's directory, under the source's stem with
/// `.hls` behind it.
pub proof fn law_hls_output_is_sibling(input: Seq<char>)
    requires
        path::file_stem(input) is Some,
    ensures
        path::parent(beside(input, hls_name(input))) == path::parent(input),
        path::file_name(beside(input, hls_name(input))) == Some(path::file_stem(input)->0 + ".hls"@),
{
    reveal_strlit(".hls");
    lemma_tagged_is_file_name(input, ".hls"@, "hls"@);
    lemma_beside(input, hls_name(input));
}

/// The default output lies in its source's directory, and is not the source.
pub proof fn law_default_output_is_sibling(source: Seq<char>, is_file: bool, c: Container)
    requires
        path::file_name(source) is Some,
    ensures
        path::parent(default_path(source, is_file, c)) == path::parent(source),
        path::file_name(default_path(source, is_file, c)) is Some,
        path::file_name(default_path(source, is_file, c)) != path::file_name(source),
        default_path(source, is_file, c) != source,
{
    let n = path::file_name(source)->0;
    path::lemma_file_name(source);
    path::lemma_stem(n);
    reveal_strlit("mkv");
    reveal_strlit("mp4");
    reveal_strlit("-converted.");
    reveal_strlit("-converted");
    if is_file {
        let stem = path::file_stem(source)->0;
        let tail = "-converted."@ + container::container_name(c);
        let name = stem + "-converted."@ + container::container_name(c);
        assert(name =~= tagged(source, tail, ""@));
        assert forall|i: int| 0 <= i < tail.len() implies tail[i] != '/' by {
            if i >= 11 {
                assert(tail[i] == container::container_name(c)[i - 11]);
            }
        }
        lemma_tagged_is_file_name(source, tail, ""@);
        path::lemma_sibling(source, name);
        assert(path::parent(source)->0 == path::upto(source, path::components(source).len() - 1));
        text::lemma_last_at(n, '.');
        if name == n {
            assert(name[stem.len() as int] == '-');
        }
    } else {
        let name = n + "-converted"@;
        assert forall|i: int| 0 <= i < name.len() implies name[i] != '/' by {
            if i < n.len() {
                assert(n.contains(n[i]));
            }
        }
        lemma_beside(source, name);
        assert(name.len() > n.len());
    }
}

/// A re-encoded file stands under the output root where its source stands under
/// the source root, with the container's extension.
pub proof fn law_output_mirrors_tree(
    root: Seq<char>,
    base: Seq<char>,
    input: Seq<char>,
    c: Container,
)
    requires
        path::components(base).len() > 0,
        path::stripped(input, base) is Some,
        path::file_name(path::stripped(input, base)->0) is Some,
    ensures
        ({
            let rel = path::stripped(input, base)->0;
            let inner = path::components(rel);
            &&& path::components(input) == path::components(base) + inner
            &&& path::components(encoded_path(root, rel, c)) == path::components(root)
                + inner.drop_last().push(
                path::file_stem(rel)->0 + seq!['.'] + container::container_name(c),
            )
        }),
{
    let rel = path::stripped(input, base)->0;
    let ext = container::container_name(c);
    path::lemma_stripped(input, base);
    path::lemma_join_components(root, rel);
    let p = path::joined_path(root, rel);
    assert(path::components(p).last() == path::components(rel).last());
    assert(path::file_name(p) == path::file_name(rel));
    reveal_strlit("mkv");
    reveal_strlit("mp4");
    path::lemma_with_extension(p, ext);
    assert(path::components(encoded_path(root, rel, c)) =~= path::components(root)
        + path::components(rel).drop_last().push(path::file_stem(rel)->0 + seq!['.'] + ext));
}

/// A bundle under an output root stands where its source stands under the
/// source root.
pub proof fn law_bundles_mirror_tree(
    root: Seq<char>,
    base: Seq<char>,
    input: Seq<char>,
    name: Seq<char>,
)
    requires
        path::components(base).len() > 0,
        path::stripped(input, base) is Some,
        path::file_stem(path::stripped(input, base)->0) is Some,
        name == web_name(path::stripped(input, base)->0) || name == hls_name(
            path::stripped(input, base)->0,
        ),
    ensures
        ({
            let rel = path::stripped(input, base)->0;
            let inner = path::components(rel);
            &&& path::components(input) == path::components(base) + inner
            &&& path::components(mirrored(root, rel, name)) == path::components(root)
                + inner.drop_last().push(name)
        }),
{
    let rel = path::stripped(input, base)->0;
    path::lemma_stripped(input, base);
    reveal_strlit(".hls");
    reveal_strlit(".web.mp4");
    lemma_tagged_is_file_name(rel, ".web.mp4"@, "web.mp4"@);
    lemma_tagged_is_file_name(rel, ".hls"@, "hls"@);
    let k = path::components(rel).len() - 1;
    let d = path::parent(rel)->0;
    path::lemma_upto(rel, k);
    assert(path::components(d) =~= path::components(rel).drop_last());
    path::lemma_spans(rel);
    assert(!path::has_head_component(d)) by {
        if path::has_head_component(d) {
            assert(d.len() > 0);
            assert(d[0] == rel[0]);
            assert(k > 0);
            if d.len() > 1 {
                assert(d[1] == rel[1]);
            } else {
                assert(path::components(d)[0] == d.subrange(0, 1));
                assert(d.subrange(0, 1) =~= seq![d[0]]);
                assert(path::spans(rel)[0].1 == 1);
                assert(path::is_piece(rel.subrange(path::spans(rel)[0].0, 1)));
                assert(rel.subrange(0, 1) =~= seq![rel[0]]);
            }
        }
    }
    path::lemma_join_components(root, d);
    let folder = path::joined_path(root, d);
    path::lemma_join_spans(folder, name);
    assert(path::components(mirrored(root, rel, name)) =~= path::components(root)
        + path::components(rel).drop_last().push(name));
}

/// Two sources with different stems never share an output next to them.
pub proof fn law_siblings_do_not_collide(a: Seq<char>, b: Seq<char>)
    requires
        path::file_stem(a) is Some,
        path::file_stem(b) is Some,
        path::file_stem(a) != path::file_stem(b),
    ensures
        beside(a, web_name(a)) != beside(b, web_name(b)),
        beside(a, hls_name(a)) != beside(b, hls_name(b)),
{
    law_web_output_is_sibling(a);
    law_web_output_is_sibling(b);
    law_hls_output_is_sibling(a);
    law_hls_output_is_sibling(b);
    let x = path::file_stem(a)->0;
    let y = path::file_stem(b)->0;
    reveal_strlit(".web.mp4");
    reveal_strlit(".hls");
    if x + ".web.mp4"@ == y + ".web.mp4"@ {
        assert((x + ".web.mp4"@).take(x.len() as int) =~= x);
        assert((y + ".web.mp4"@).take(y.len() as int) =~= y);
        assert((x + ".web.mp4"@).len() == (y + ".web.mp4"@).len());
    }
    if x + ".hls"@ == y + ".hls"@ {
        assert((x + ".hls"@).take(x.len() as int) =~= x);
        assert((y + ".hls"@).take(y.len() as int) =~= y);
        assert((x + ".hls"@).len() == (y + ".hls"@).len());
    }
}

/// What lies in the default output of a directory does not lie in the
/// directory, so that a second run does not meet what the first one wrote.
pub proof fn law_default_output_is_outside_its_source(source: Seq<char>, c: Container, p: Seq<char>)
    requires
        path::file_name(source) is Some,
        path::stripped(p, default_path(source, false, c)) is Some,
    ensures
        path::stripped(p, source) is None,
{
    let n = path::file_name(source)->0;
    let name = n + "-converted"@;
    path::lemma_file_name(source);
    reveal_strlit("-converted");
    assert forall|i: int| 0 <= i < name.len() implies name[i] != '/' by {
        if i < n.len() {
            assert(n.contains(n[i]));
        }
    }
    lemma_beside(source, name);
    let a = path::components(source);
    let b = path::components(default_path(source, false, c));
    assert(b == a.drop_last().push(name));
    let k = a.len() - 1;
    assert(b[k] == name && a[k] == n);
    assert(name.len() > n.len());
    if path::stripped(p, source) is Some {
        let q = path::components(p);
        assert(q.take(a.len() as int)[k] == q[k]);
        assert(q.take(b.len() as int)[k] == q[k]);
    }
}

/// The default output bears the name of its source: for a file its stem with
/// `-converted` and the container's extension behind it, for a directory its name
/// with `-converted` behind it.
pub proof fn law_default_output_bears_the_name(source: Seq<char>, c: Container)
    requires
        path::file_name(source) is Some,
    ensures
        path::file_name(default_path(source, true, c)) == Some(
            path::file_stem(source)->0 + (if c == Container::Mkv {
                "-converted.mkv"@
            } else {
                "-converted.mp4"@
            }),
        ),
        path::file_name(default_path(source, false, c)) == Some(
            path::file_name(source)->0 + "-converted"@,
        ),
{
    let n = path::file_name(source)->0;
    path::lemma_file_name(source);
    path::lemma_stem(n);
    reveal_strlit("mkv");
    reveal_strlit("mp4");
    reveal_strlit("-converted.");
    reveal_strlit("-converted");
    reveal_strlit("-converted.mkv");
    reveal_strlit("-converted.mp4");
    let stem = path::file_stem(source)->0;
    let tail = "-converted."@ + container::container_name(c);
    let name = stem + "-converted."@ + container::container_name(c);
    assert(tail =~= if c == Container::Mkv {
        "-converted.mkv"@
    } else {
        "-converted.mp4"@
    });
    assert(name =~= stem + tail);
    assert(name =~= tagged(source, tail, ""@));
    assert forall|i: int| 0 <= i < tail.len() implies tail[i] != '/' by {
        if i >= 11 {
            assert(tail[i] == container::container_name(c)[i - 11]);
        }
    }
    lemma_tagged_is_file_name(source, tail, ""@);
    path::lemma_sibling(source, name);
    let folder = n + "-converted"@;
    assert forall|i: int| 0 <= i < folder.len() implies folder[i] != '/' by {
        if i < n.len() {
            assert(n.contains(n[i]));
        }
    }
    lemma_beside(source, folder);
}

/// An output path that exists is what it is; one that does not names a file when
/// it has an extension and no slash behind it.
pub proof fn law_what_an_output_path_names(p: Seq<char>, is_file: bool)
    ensures
        !names_file(p, true, is_file),
        names_file(p, false, true),
        p.len() > 0 && p.last() == '/' ==> !names_file(p, false, false),
        path::extension(p) is None ==> !names_file(p, false, false),
        path::extension(p) is Some && p.last() != '/' ==> names_file(p, false, false),
{
    if p.len() == 0 {
        assert(path::file_name(p) is None) by {
            path::lemma_spans(p);
            if path::components(p).len() > 0 {
                path::lemma_component_is_file_name(p, 0);
            }
        }
    }
}

/// The user is warned of scarce space exactly when less is free than the sources
/// take up, and that the space is not known when it is not.
pub proof fn law_when_space_is_scarce(
    output: Seq<char>,
    expected: Option<u64>,
    available: Result<u64, String>,
)
    ensures
        space_warnings(output, expected, available).len() <= 1,
        available is Err ==> space_warnings(output, expected, available).len() == 1,
        (available matches Ok(a)) ==> (space_warnings(output, expected, available).len() == 1 <==> (
        expected matches Some(e) && available->Ok_0 < e)),
{
}

/// The sizes of files add up; a file whose size is not known adds nothing.
pub proof fn law_sizes_add_up(a: Seq<Option<u64>>, b: Seq<Option<u64>>, n: u64)
    ensures
        total_size(a + b) == total_size(a) + total_size(b),
        total_size(seq![Some(n)]) == n,
        total_size(seq![None::<u64>]) == 0,
        total_size(Seq::empty()) == 0,
    decreases b.len(),
{
    reveal_with_fuel(total_size, 2);
    assert(seq![Some(n)].drop_last() =~= Seq::empty());
    assert(seq![None::<u64>].drop_last() =~= Seq::empty());
    if b.len() == 0 {
        assert(a + b =~= a);
    } else {
        law_sizes_add_up(a, b.drop_last(), n);
        assert((a + b).drop_last() =~= a + b.drop_last());
    }
}

/// Why an output is refused: it exists and is no directory, it could not be made,
/// or nothing could be written to it; what the system said comes along. A
/// directory that is there or was made is tried out, and only then measured.
pub proof fn law_why_an_output_is_refused(
    step: OutputStep,
    output: Seq<char>,
    expected: Option<u64>,
    process_id: nat,
    cause: String,
)
    ensures
        follows(
            step,
            OutputEvent::Found { exists: true, is_dir: false },
            output,
            expected,
            process_id,
        ) ==> (step matches OutputStep::Refuse(e) && e is NotDirectory),
        follows(
            step,
            OutputEvent::Found { exists: false, is_dir: false },
            output,
            expected,
            process_id,
        ) ==> step is Create,
        follows(
            step,
            OutputEvent::Found { exists: true, is_dir: true },
            output,
            expected,
            process_id,
        ) ==> step is Probe,
        follows(step, OutputEvent::Created(Ok(())), output, expected, process_id) ==> step is Probe,
        follows(step, OutputEvent::Created(Err(cause)), output, expected, process_id) ==> step
            == OutputStep::Refuse(OutputError::CannotCreate(cause)),
        follows(step, OutputEvent::Probed(Ok(())), output, expected, process_id) ==> step is Measure,
        follows(step, OutputEvent::Probed(Err(cause)), output, expected, process_id) ==> step
            == OutputStep::Refuse(OutputError::NotWritable(cause)),
{
}

/// The warning says how much is free, and behind it how much the sources take up.
pub proof fn law_warning_names_both_sizes(available: nat, expected: nat)
    ensures
        text::starts_with(
            low_space_text(available, expected),
            "Output filesystem has only "@ + units::bytes_text(available)
                + " free, but source files total "@ + units::bytes_text(expected) + "."@,
        ),
{
    reveal_strlit(". Re-encoding usually shrinks files, but this could be tight.");
    reveal_strlit(".");
    let t = low_space_text(available, expected);
    let head = "Output filesystem has only "@ + units::bytes_text(available)
        + " free, but source files total "@ + units::bytes_text(expected) + "."@;
    assert(t.subrange(0, head.len() as int) =~= head);
}

} // verus!
