//! What the commands for ffmpeg come to when they are read: which values they
//! give under each flag.

use vstd::prelude::*;
use crate::backend;
use crate::backend::Backend;
use crate::codec::Codec;
use crate::container::Container;
use crate::convert;
use crate::convert::{EncodeOptions, Settings};
use crate::profile;
use crate::profile::EncodingProfile;
use crate::text;
use crate::upscale;
use crate::upscale::Upscale;

verus! {

/// The values under a flag in a list of flags with a value each, in order.
pub open spec fn given_in(s: Seq<Seq<char>>, flag: Seq<char>) -> Seq<Seq<char>>
    decreases s.len(),
{
    if s.len() < 2 {
        Seq::empty()
    } else {
        let before = given_in(s.take(s.len() - 2), flag);
        if s[s.len() - 2] == flag {
            before.push(s.last())
        } else {
            before
        }
    }
}

/// The values that a command gives under a flag, in order. A command begins with
/// eight arguments that all commands share and ends with its output; what stands
/// between them are flags with a value each.
pub open spec fn given(args: Seq<Seq<char>>, flag: Seq<char>) -> Seq<Seq<char>> {
    given_in(args.subrange(8, args.len() - 1), flag)
}

// ---------------------------------------------------------- lists of pairs --

proof fn lemma_given_concat(a: Seq<Seq<char>>, b: Seq<Seq<char>>, f: Seq<char>)
    requires
        a.len() % 2 == 0,
        b.len() % 2 == 0,
    ensures
        given_in(a + b, f) == given_in(a, f) + given_in(b, f),
    decreases b.len(),
{
    if b.len() == 0 {
        assert(a + b =~= a);
        assert(given_in(a, f) + given_in(b, f) =~= given_in(a, f));
    } else {
        let c = b.take(b.len() - 2);
        let s = a + b;
        lemma_given_concat(a, c, f);
        assert(s.take(s.len() - 2) =~= a + c);
        assert(given_in(s, f) =~= given_in(a, f) + given_in(b, f));
    }
}

proof fn lemma_given_none(s: Seq<Seq<char>>, f: Seq<char>)
    requires
        s.len() % 2 == 0,
        forall|k: int| 0 <= k < s.len() && k % 2 == 0 ==> #[trigger] s[k] != f,
    ensures
        given_in(s, f) == Seq::<Seq<char>>::empty(),
    decreases s.len(),
{
    if s.len() >= 2 {
        let t = s.take(s.len() - 2);
        assert forall|k: int| 0 <= k < t.len() && k % 2 == 0 implies #[trigger] t[k] != f by {
            assert(t[k] == s[k]);
        }
        lemma_given_none(t, f);
        assert((s.len() - 2) % 2 == 0);
    }
}

proof fn lemma_given_pair(a: Seq<char>, b: Seq<char>, f: Seq<char>)
    ensures
        given_in(seq![a, b], f) == one(a, b, f),
{
    let s = seq![a, b];
    assert(s.take(0).len() == 0);
    assert(given_in(s.take(s.len() - 2), f) =~= Seq::<Seq<char>>::empty());
    assert(given_in(s, f) =~= one(a, b, f));
}

/// What a flag with a value gives under a flag.
spec fn one(flag: Seq<char>, value: Seq<char>, f: Seq<char>) -> Seq<Seq<char>> {
    if flag == f {
        seq![value]
    } else {
        Seq::empty()
    }
}

proof fn lemma_given_pairs(
    n: nat,
    first: spec_fn(int) -> Seq<char>,
    second: spec_fn(int) -> Seq<char>,
    f: Seq<char>,
)
    requires
        forall|i: int| 0 <= i < n ==> #[trigger] first(i) == f,
    ensures
        given_in(convert::pairs(n, first, second), f) == Seq::new(n, |i: int| second(i)),
    decreases n,
{
    let s = convert::pairs(n, first, second);
    if n > 0 {
        let m = (n - 1) as nat;
        lemma_given_pairs(m, first, second, f);
        assert(s.take(s.len() - 2) =~= convert::pairs(m, first, second));
        assert((2 * m) / 2 == m && (2 * m + 1) / 2 == m && (2 * m + 1) % 2 == 1);
        assert(s[s.len() - 2] == first(m as int));
        assert(s.last() == second(m as int));
    }
    assert(given_in(s, f) =~= Seq::new(n, |i: int| second(i)));
}

proof fn lemma_given_other_pairs(
    n: nat,
    first: spec_fn(int) -> Seq<char>,
    second: spec_fn(int) -> Seq<char>,
    f: Seq<char>,
)
    requires
        forall|i: int| 0 <= i < n ==> #[trigger] first(i) != f,
    ensures
        given_in(convert::pairs(n, first, second), f) == Seq::<Seq<char>>::empty(),
{
    let s = convert::pairs(n, first, second);
    assert forall|k: int| 0 <= k < s.len() && k % 2 == 0 implies #[trigger] s[k] != f by {
        assert(s[k] == first(k / 2));
    }
    lemma_given_none(s, f);
}

// ------------------------------------------------- the parts of a command --

/// Whether a flag is none of those that set the codecs of subtitles, data and
/// attachments, or metadata.
spec fn is_apart(f: Seq<char>) -> bool {
    &&& f.len() >= 3
    &&& !sets_codec(f)
    &&& !(f[1] == 'm' && f[2] == 'e')
}

/// Whether a flag begins like one that sets the codec of subtitles, data or
/// attachments.
spec fn sets_codec(f: Seq<char>) -> bool {
    f.len() >= 4 && f[1] == 'c' && f[2] == ':' && (f[3] == 's' || f[3] == 'd' || f[3] == 't')
}

proof fn lemma_given_languages(o: Settings, k: nat, f: Seq<char>)
    requires
        k <= o.subtitles.len(),
    ensures
        convert::language_args(o, k).len() % 2 == 0,
        f.len() < 3 || f[1] != 'm' || f[2] != 'e' ==> given_in(convert::language_args(o, k), f)
            == Seq::<Seq<char>>::empty(),
    decreases k,
{
    reveal_strlit("-metadata:s:s:");
    if k > 0 {
        lemma_given_languages(o, (k - 1) as nat, f);
        let before = convert::language_args(o, (k - 1) as nat);
        match o.subtitles[k - 1].language {
            Some(lang) => {
                let flag = "-metadata:s:s:"@ + text::decimal(
                    (o.source_subtitle_codecs.len() + k - 1) as nat,
                );
                let last = seq![flag, "language="@ + lang];
                assert(convert::language_args(o, k) == before + last);
                lemma_given_concat(before, last, f);
                lemma_given_pair(flag, "language="@ + lang, f);
                assert(flag[1] == 'm' && flag[2] == 'e' && flag.len() >= 3);
                assert(given_in(before, f) + given_in(last, f) =~= given_in(before, f) + one(
                    flag,
                    "language="@ + lang,
                    f,
                ));
            },
            None => {
                assert(convert::language_args(o, k) =~= before);
            },
        }
    }
}

proof fn lemma_given_subtitles(o: Settings, f: Seq<char>)
    ensures
        convert::subtitle_args(o).len() % 2 == 0,
        !sets_codec(f) ==> given_in(convert::subtitle_args(o), f) == Seq::<Seq<char>>::empty(),
{
    reveal_strlit("-c:s");
    reveal_strlit("-c:s:");
    reveal_strlit("-c:d");
    reveal_strlit("-c:t");
    let s = convert::subtitle_args(o);
    let n = o.source_subtitle_codecs.len();
    if !sets_codec(f) {
        assert forall|k: int| 0 <= k < s.len() && k % 2 == 0 implies #[trigger] s[k] != f by {
            assert(s[k].len() >= 4 && s[k][1] == 'c' && s[k][2] == ':' && (s[k][3] == 's' || s[k][3]
                == 'd' || s[k][3] == 't'));
        }
        lemma_given_none(s, f);
    }
}

proof fn lemma_given_inputs(input: Seq<char>, o: Settings, f: Seq<char>)
    ensures
        convert::input_args(input, o).len() % 2 == 0,
        given_in(convert::input_args(input, o), f) == if f == "-i"@ {
            seq!["file:"@ + input] + Seq::new(
                o.subtitles.len(),
                |i: int| "file:"@ + o.subtitles[i].path,
            )
        } else {
            Seq::empty()
        },
{
    let first = |i: int| "-i"@;
    let second = |i: int| "file:"@ + o.subtitles[i].path;
    let n = o.subtitles.len();
    let head = seq!["-i"@, "file:"@ + input];
    let rest = convert::pairs(n, first, second);
    assert(convert::input_args(input, o) =~= head + rest);
    lemma_given_concat(head, rest, f);
    lemma_given_pair("-i"@, "file:"@ + input, f);
    if f == "-i"@ {
        lemma_given_pairs(n, first, second, f);
        assert(given_in(rest, f) =~= Seq::new(n, |i: int| "file:"@ + o.subtitles[i].path));
    } else {
        lemma_given_other_pairs(n, first, second, f);
        assert(given_in(head, f) + given_in(rest, f) =~= Seq::<Seq<char>>::empty());
    }
}

/// The streams of the source that go into a container, as ffmpeg names them:
/// everything into MKV; video, audio and subtitles into MP4, the last two where
/// there are any.
pub open spec fn source_streams(c: Container) -> Seq<Seq<char>> {
    match c {
        Container::Mkv => seq!["0"@],
        Container::Mp4 => seq!["0:v"@, "0:a?"@, "0:s?"@],
    }
}

/// The maps of a command: the streams of the source, those that are dropped from
/// them again, and the whole of each further input.
pub open spec fn maps(c: Container, unmappable: Seq<nat>, sidecars: nat) -> Seq<Seq<char>> {
    source_streams(c) + Seq::new(
        unmappable.len(),
        |i: int| "-0:"@ + text::decimal(unmappable[i]),
    ) + Seq::new(sidecars, |i: int| text::decimal((i + 1) as nat))
}

#[verifier::spinoff_prover]
proof fn lemma_given_maps(c: Container, o: Settings, f: Seq<char>)
    ensures
        convert::source_map_args(c).len() % 2 == 0,
        convert::drop_map_args(o).len() % 2 == 0,
        convert::sidecar_map_args(o).len() % 2 == 0,
        given_in(convert::source_map_args(c), f) + given_in(convert::drop_map_args(o), f) + given_in(
            convert::sidecar_map_args(o),
            f,
        ) == if f == "-map"@ {
            maps(c, o.unmappable, o.subtitles.len())
        } else {
            Seq::empty()
        },
{
    let first = |i: int| "-map"@;
    let dropped = |i: int| "-0:"@ + text::decimal(o.unmappable[i]);
    let added = |i: int| text::decimal((i + 1) as nat);
    let n = o.unmappable.len();
    let m = o.subtitles.len();
    assert(convert::drop_map_args(o) =~= convert::pairs(n, first, dropped));
    assert(convert::sidecar_map_args(o) =~= convert::pairs(m, first, added));
    let whole = seq!["-map"@, "0"@];
    let video = seq!["-map"@, "0:v"@];
    let audio = seq!["-map"@, "0:a?"@];
    let subs = seq!["-map"@, "0:s?"@];
    lemma_given_pair("-map"@, "0"@, f);
    lemma_given_pair("-map"@, "0:v"@, f);
    lemma_given_pair("-map"@, "0:a?"@, f);
    lemma_given_pair("-map"@, "0:s?"@, f);
    match c {
        Container::Mkv => {},
        Container::Mp4 => {
            lemma_given_concat(video, audio, f);
            lemma_given_concat(video + audio, subs, f);
            assert(convert::source_map_args(c) =~= video + audio + subs);
        },
    }
    if f == "-map"@ {
        lemma_given_pairs(n, first, dropped, f);
        lemma_given_pairs(m, first, added, f);
        assert(given_in(convert::source_map_args(c), f) =~= source_streams(c));
        assert(Seq::new(n, |i: int| dropped(i)) =~= Seq::new(
            n,
            |i: int| "-0:"@ + text::decimal(o.unmappable[i]),
        ));
        assert(Seq::new(m, |i: int| added(i)) =~= Seq::new(
            m,
            |i: int| text::decimal((i + 1) as nat),
        ));
    } else {
        lemma_given_other_pairs(n, first, dropped, f);
        lemma_given_other_pairs(m, first, added, f);
        assert(given_in(convert::source_map_args(c), f) =~= Seq::<Seq<char>>::empty());
        assert(given_in(convert::source_map_args(c), f) + given_in(convert::drop_map_args(o), f)
            + given_in(convert::sidecar_map_args(o), f) =~= Seq::<Seq<char>>::empty());
    }
}

proof fn lemma_given_preamble(o: Settings, f: Seq<char>)
    ensures
        convert::preamble_args(o).len() % 2 == 0,
        f.len() >= 3 && f[1] != 'h' && !(f[1] == 'v' && f[2] == 'a') ==> given_in(
            convert::preamble_args(o),
            f,
        ) == Seq::<Seq<char>>::empty(),
        f.len() < 3 ==> given_in(convert::preamble_args(o), f) == Seq::<Seq<char>>::empty(),
{
    reveal_strlit("-hwaccel");
    reveal_strlit("-hwaccel_output_format");
    reveal_strlit("-vaapi_device");
    let s = convert::preamble_args(o);
    if f.len() < 3 || (f[1] != 'h' && !(f[1] == 'v' && f[2] == 'a')) {
        assert forall|k: int| 0 <= k < s.len() && k % 2 == 0 implies #[trigger] s[k] != f by {
            assert(s[k].len() >= 3 && (s[k][1] == 'h' || (s[k][1] == 'v' && s[k][2] == 'a')));
        }
        lemma_given_none(s, f);
    }
}

proof fn lemma_streams_even(o: Settings)
    ensures
        convert::stream_args(o).len() % 2 == 0,
{
}

proof fn lemma_given_three(
    a: Seq<Seq<char>>,
    b: Seq<Seq<char>>,
    c: Seq<Seq<char>>,
    f: Seq<char>,
)
    requires
        a.len() % 2 == 0,
        b.len() % 2 == 0,
        c.len() % 2 == 0,
    ensures
        (a + b + c).len() % 2 == 0,
        given_in(a + b + c, f) == given_in(a, f) + given_in(b, f) + given_in(c, f),
{
    lemma_given_concat(a, b, f);
    lemma_given_concat(a + b, c, f);
}

/// What stands between the common arguments and the output.
proof fn lemma_middle(
    head: Seq<Seq<char>>,
    middle: Seq<Seq<char>>,
    last: Seq<char>,
    f: Seq<char>,
)
    requires
        head.len() == 8,
    ensures
        given(head + middle + seq![last], f) == given_in(middle, f),
{
    let args = head + middle + seq![last];
    assert(args.subrange(8, args.len() - 1) =~= middle);
}

/// The options of a command for a single file, in three groups.
spec fn before_maps(input: Seq<char>, o: Settings) -> Seq<Seq<char>> {
    convert::preamble_args(o) + convert::input_args(input, o)
}

spec fn map_part(o: Settings) -> Seq<Seq<char>> {
    convert::source_map_args(convert::written_container(o)) + convert::drop_map_args(o)
        + convert::sidecar_map_args(o)
}

spec fn after_maps(o: Settings) -> Seq<Seq<char>> {
    convert::stream_args(o) + convert::subtitle_args(o) + convert::language_args(
        o,
        o.subtitles.len(),
    )
}

proof fn lemma_groups(input: Seq<char>, output: Seq<char>, o: Settings)
    requires
        o.profile != EncodingProfile::Hls,
    ensures
        convert::ffmpeg_args(input, output, o) == convert::global_args() + (before_maps(input, o)
            + map_part(o) + after_maps(o)) + seq!["file:"@ + output],
        convert::global_args().len() == 8,
{
    let a = convert::preamble_args(o);
    let b = convert::input_args(input, o);
    let m1 = convert::source_map_args(convert::written_container(o));
    let m2 = convert::drop_map_args(o);
    let m3 = convert::sidecar_map_args(o);
    let d = convert::stream_args(o);
    let e = convert::subtitle_args(o);
    let g = convert::language_args(o, o.subtitles.len());
    lemma_regroup(convert::global_args(), a, b, m1, m2, m3, d, e, g, seq!["file:"@ + output]);
}

#[verifier::spinoff_prover]
proof fn lemma_regroup(
    h: Seq<Seq<char>>,
    a: Seq<Seq<char>>,
    b: Seq<Seq<char>>,
    m1: Seq<Seq<char>>,
    m2: Seq<Seq<char>>,
    m3: Seq<Seq<char>>,
    d: Seq<Seq<char>>,
    e: Seq<Seq<char>>,
    g: Seq<Seq<char>>,
    z: Seq<Seq<char>>,
)
    ensures
        h + a + b + m1 + m2 + m3 + d + e + g + z == h + ((a + b) + (m1 + m2 + m3) + (d + e + g)) + z,
{
    assert(h + a + b + m1 + m2 + m3 + d + e + g + z =~= h + ((a + b) + (m1 + m2 + m3) + (d + e + g))
        + z);
}

/// What a command for a single file gives under a flag is what its parts give.
proof fn lemma_given_file(input: Seq<char>, output: Seq<char>, o: Settings, f: Seq<char>)
    requires
        o.profile != EncodingProfile::Hls,
    ensures
        given(convert::ffmpeg_args(input, output, o), f) == (given_in(convert::preamble_args(o), f)
            + given_in(convert::input_args(input, o), f)) + given_in(map_part(o), f) + (given_in(
            convert::stream_args(o),
            f,
        ) + given_in(convert::subtitle_args(o), f) + given_in(
            convert::language_args(o, o.subtitles.len()),
            f,
        )),
        given_in(map_part(o), f) == if f == "-map"@ {
            maps(convert::written_container(o), o.unmappable, o.subtitles.len())
        } else {
            Seq::empty()
        },
{
    let c = convert::written_container(o);
    lemma_given_preamble(o, f);
    lemma_given_inputs(input, o, f);
    lemma_given_maps(c, o, f);
    lemma_streams_even(o);
    lemma_given_subtitles(o, f);
    lemma_given_languages(o, o.subtitles.len(), f);
    lemma_given_concat(convert::preamble_args(o), convert::input_args(input, o), f);
    lemma_given_three(
        convert::source_map_args(c),
        convert::drop_map_args(o),
        convert::sidecar_map_args(o),
        f,
    );
    lemma_given_three(
        convert::stream_args(o),
        convert::subtitle_args(o),
        convert::language_args(o, o.subtitles.len()),
        f,
    );
    lemma_given_three(before_maps(input, o), map_part(o), after_maps(o), f);
    lemma_groups(input, output, o);
    lemma_middle(
        convert::global_args(),
        before_maps(input, o) + map_part(o) + after_maps(o),
        "file:"@ + output,
        f,
    );
}

// ------------------------------------------------------- what is asked for --

/// The ffmpeg encoder for a codec on a backend.
pub open spec fn encoder_for(c: Codec, b: Backend) -> Seq<char> {
    match (c, b) {
        (Codec::X265, Backend::Software) => "libx265"@,
        (Codec::X265, Backend::Nvenc) => "hevc_nvenc"@,
        (Codec::X265, Backend::Qsv) => "hevc_qsv"@,
        (Codec::X265, Backend::Vaapi) => "hevc_vaapi"@,
        (Codec::Av1, Backend::Software) => "libsvtav1"@,
        (Codec::Av1, Backend::Nvenc) => "av1_nvenc"@,
        (Codec::Av1, Backend::Qsv) => "av1_qsv"@,
        (Codec::Av1, Backend::Vaapi) => "av1_vaapi"@,
    }
}

/// The preset for a choice of the user: VAAPI takes none; else it is the user's,
/// or what suits the encoder.
pub open spec fn preset_for(c: Codec, b: Backend, chosen: Option<Seq<char>>) -> Option<Seq<char>> {
    if b == Backend::Vaapi {
        None
    } else if chosen is Some {
        chosen
    } else if b == Backend::Nvenc {
        Some("p4"@)
    } else if b == Backend::Software && c == Codec::Av1 {
        Some("8"@)
    } else {
        Some("medium"@)
    }
}

/// What an upscale and a backend come to as a video filter: the steps of the
/// upscale, and behind them, for VAAPI, those that bring the frames up.
pub open spec fn filter_for(u: Upscale, b: Backend) -> Seq<Seq<char>> {
    match (upscale::upscale_filter(u, b), b) {
        (None, Backend::Vaapi) => seq!["format=nv12,hwupload"@],
        (None, _) => Seq::empty(),
        (Some(f), Backend::Vaapi) => seq![f + ",format=nv12,hwupload"@],
        (Some(f), _) => seq![f],
    }
}

#[verifier::spinoff_prover]
proof fn lemma_given_encoder(o: Settings, f: Seq<char>)
    ensures
        given_in(convert::encoder_args(o), f) == (if "-vf"@ == f {
            filter_for(o.upscale, o.backend)
        } else {
            Seq::empty()
        }) + one("-c:v"@, encoder_for(o.codec, o.backend), f) + one(
            backend::quality_flag(o.backend),
            text::decimal(o.quality),
            f,
        ) + (match preset_for(o.codec, o.backend, o.preset) {
            Some(p) => one("-preset"@, p, f),
            None => Seq::empty(),
        }) + (if o.backend == Backend::Nvenc {
            one("-rc"@, "vbr"@, f)
        } else {
            Seq::empty()
        }),
        convert::encoder_args(o).len() % 2 == 0,
{
    reveal_strlit(",");
    reveal_strlit("format=nv12,hwupload");
    reveal_strlit(",format=nv12,hwupload");
    let filter: Seq<Seq<char>> = match convert::filter_chain(o.upscale, o.backend) {
        Some(v) => seq!["-vf"@, v],
        None => Seq::empty(),
    };
    let encoder = seq!["-c:v"@, encoder_for(o.codec, o.backend)];
    let quality = seq![backend::quality_flag(o.backend), text::decimal(o.quality)];
    let preset: Seq<Seq<char>> = match preset_for(o.codec, o.backend, o.preset) {
        Some(p) => seq!["-preset"@, p],
        None => Seq::empty(),
    };
    let extra: Seq<Seq<char>> = if o.backend == Backend::Nvenc {
        seq!["-rc"@, "vbr"@]
    } else {
        Seq::empty()
    };
    assert(convert::encoder_args(o) =~= filter + encoder + quality + preset + extra);
    lemma_given_three(filter, encoder, quality, f);
    lemma_given_three(filter + encoder + quality, preset, extra, f);
    lemma_given_pair("-c:v"@, encoder_for(o.codec, o.backend), f);
    lemma_given_pair(backend::quality_flag(o.backend), text::decimal(o.quality), f);
    lemma_given_pair("-rc"@, "vbr"@, f);
    match preset_for(o.codec, o.backend, o.preset) {
        Some(p) => {
            lemma_given_pair("-preset"@, p, f);
        },
        None => {},
    }
    match convert::filter_chain(o.upscale, o.backend) {
        Some(v) => {
            lemma_given_pair("-vf"@, v, f);
            assert(given_in(filter, f) =~= (if "-vf"@ == f {
                filter_for(o.upscale, o.backend)
            } else {
                Seq::empty()
            })) by {
                match upscale::upscale_filter(o.upscale, o.backend) {
                    Some(u) => {
                        assert(u + ","@ + "format=nv12,hwupload"@ =~= u + ",format=nv12,hwupload"@);
                    },
                    None => {},
                }
            }
        },
        None => {},
    }
}

/// What a Standard command that re-encodes gives under a flag that concerns
/// video or audio is what its encoder settings give, and the copied audio.
proof fn lemma_given_reencode(input: Seq<char>, output: Seq<char>, o: Settings, f: Seq<char>)
    requires
        o.profile == EncodingProfile::Standard,
        !o.merge_only,
        is_apart(f),
        f[1] != 'h',
        !(f[1] == 'v' && f[2] == 'a'),
        f != "-i"@,
        f != "-map"@,
    ensures
        given(convert::ffmpeg_args(input, output, o), f) == given_in(convert::encoder_args(o), f)
            + one("-c:a"@, "copy"@, f),
{
    lemma_given_file(input, output, o, f);
    lemma_given_preamble(o, f);
    lemma_given_inputs(input, o, f);
    lemma_given_subtitles(o, f);
    lemma_given_languages(o, o.subtitles.len(), f);
    lemma_given_encoder(o, f);
    let audio = seq!["-c:a"@, "copy"@];
    lemma_given_pair("-c:a"@, "copy"@, f);
    lemma_given_concat(convert::encoder_args(o), audio, f);
    assert(convert::stream_args(o) =~= convert::encoder_args(o) + audio);
    let e = Seq::<Seq<char>>::empty();
    let g = given_in(convert::stream_args(o), f);
    assert((e + e) + e + (g + e + e) =~= g);
}

/// The flag under which a backend takes its quality value.
pub open spec fn quality_flag_of(b: Backend) -> Seq<char> {
    match b {
        Backend::Software => "-crf"@,
        Backend::Nvenc => "-cq"@,
        Backend::Qsv => "-global_quality"@,
        Backend::Vaapi => "-qp"@,
    }
}

/// The flags of encoder settings, by the letters that tell them apart.
proof fn lemma_flags()
    ensures
        "-i"@.len() == 2 && "-i"@[1] == 'i',
        "-map"@.len() == 4 && "-map"@[1] == 'm' && "-map"@[2] == 'a' && "-map"@[3] == 'p',
        "-c:v"@.len() == 4 && "-c:v"@[1] == 'c' && "-c:v"@[2] == ':' && "-c:v"@[3] == 'v',
        "-c:a"@.len() == 4 && "-c:a"@[1] == 'c' && "-c:a"@[2] == ':' && "-c:a"@[3] == 'a',
        "-crf"@.len() == 4 && "-crf"@[1] == 'c' && "-crf"@[2] == 'r' && "-crf"@[3] == 'f',
        "-cq"@.len() == 3 && "-cq"@[1] == 'c' && "-cq"@[2] == 'q',
        "-global_quality"@.len() == 15 && "-global_quality"@[1] == 'g' && "-global_quality"@[2] == 'l' && "-global_quality"@[3] == 'o',
        "-qp"@.len() == 3 && "-qp"@[1] == 'q' && "-qp"@[2] == 'p',
        "-preset"@.len() == 7 && "-preset"@[1] == 'p' && "-preset"@[2] == 'r' && "-preset"@[3] == 'e',
        "-rc"@.len() == 3 && "-rc"@[1] == 'r' && "-rc"@[2] == 'c',
        "-vf"@.len() == 3 && "-vf"@[1] == 'v' && "-vf"@[2] == 'f',
{
    reveal_strlit("-i");
    reveal_strlit("-map");
    reveal_strlit("-c:v");
    reveal_strlit("-c:a");
    reveal_strlit("-crf");
    reveal_strlit("-cq");
    reveal_strlit("-global_quality");
    reveal_strlit("-qp");
    reveal_strlit("-preset");
    reveal_strlit("-rc");
    reveal_strlit("-vf");
}

/// A Standard command that re-encodes does what is asked for: the one video
/// encoder that it names is that of the codec on the backend, it gives the
/// quality that is asked for under the backend's own flag and under no other
/// backend's, the preset that is chosen, and it copies the audio.
#[verifier::spinoff_prover]
pub proof fn law_reencoding_follows_the_choices(
    input: Seq<char>,
    output: Seq<char>,
    opts: EncodeOptions<'_>,
)
    requires
        opts.profile == EncodingProfile::Standard,
        !opts.merge_only,
    ensures
        ({
            let args = convert::ffmpeg_args(input, output, opts@);
            &&& given(args, "-c:v"@) == seq![encoder_for(opts.codec, opts.backend)]
            &&& given(args, quality_flag_of(opts.backend)) == seq![
                text::decimal(opts.quality as nat),
            ]
            &&& forall|b: Backend|
                b != opts.backend ==> #[trigger] given(args, quality_flag_of(b)) == Seq::<
                    Seq<char>,
                >::empty()
            &&& given(args, "-preset"@) == text::maybe(
                preset_for(opts.codec, opts.backend, text::opt_str(opts.preset)),
            )
            &&& given(args, "-c:a"@) == seq!["copy"@]
            &&& given(args, "-rc"@) == if opts.backend == Backend::Nvenc {
                seq!["vbr"@]
            } else {
                Seq::empty()
            }
            &&& given(args, "-vf"@) == filter_for(opts.upscale, opts.backend)
        }),
{
    lemma_flags();
    let o = opts@;
    let args = convert::ffmpeg_args(input, output, o);
    assert forall|f: Seq<char>|
        (f == "-c:v"@ || f == "-c:a"@ || f == "-crf"@ || f == "-cq"@ || f == "-global_quality"@ || f
            == "-qp"@ || f == "-preset"@ || f == "-rc"@ || f == "-vf"@) implies #[trigger] given(
        args,
        f,
    ) == given_in(convert::encoder_args(o), f) + one("-c:a"@, "copy"@, f) by {
        lemma_given_reencode(input, output, o, f);
    }
    lemma_given_encoder(o, "-c:v"@);
    lemma_given_encoder(o, "-c:a"@);
    lemma_given_encoder(o, "-preset"@);
    lemma_given_encoder(o, "-rc"@);
    lemma_given_encoder(o, "-vf"@);
    assert(given(args, "-c:v"@) =~= seq![encoder_for(opts.codec, opts.backend)]);
    assert(given(args, "-c:a"@) =~= seq!["copy"@]);
    assert(given(args, "-preset"@) =~= text::maybe(
        preset_for(opts.codec, opts.backend, text::opt_str(opts.preset)),
    ));
    assert(given(args, "-rc"@) =~= if opts.backend == Backend::Nvenc {
        seq!["vbr"@]
    } else {
        Seq::empty()
    });
    assert(given(args, "-vf"@) =~= filter_for(opts.upscale, opts.backend));
    assert forall|b: Backend| #[trigger]
        given(args, quality_flag_of(b)) =~= if b == opts.backend {
            seq![text::decimal(opts.quality as nat)]
        } else {
            Seq::empty()
        } by {
        lemma_given_encoder(o, quality_flag_of(b));
    }
    assert(given(args, quality_flag_of(opts.backend)) =~= seq![text::decimal(opts.quality as nat)]);
}

/// Two runs that differ in their quality have different commands.
pub proof fn law_quality_shows_in_the_command(
    input: Seq<char>,
    output: Seq<char>,
    a: EncodeOptions<'_>,
    b: EncodeOptions<'_>,
)
    requires
        a.profile == EncodingProfile::Standard,
        !a.merge_only,
        b.profile == EncodingProfile::Standard,
        !b.merge_only,
        a.backend == b.backend,
        a.quality != b.quality,
    ensures
        convert::ffmpeg_args(input, output, a@) != convert::ffmpeg_args(input, output, b@),
{
    law_reencoding_follows_the_choices(input, output, a);
    law_reencoding_follows_the_choices(input, output, b);
    if convert::ffmpeg_args(input, output, a@) == convert::ffmpeg_args(input, output, b@) {
        let v = given(convert::ffmpeg_args(input, output, a@), quality_flag_of(a.backend));
        assert(v[0] == text::decimal(a.quality as nat));
        assert(v[0] == text::decimal(b.quality as nat));
        text::law_decimal_is_injective(a.quality as nat, b.quality as nat);
    }
}

proof fn lemma_given_at(s: Seq<Seq<char>>, j: int, f: Seq<char>)
    requires
        s.len() % 2 == 0,
        0 <= 2 * j < s.len(),
        s[2 * j] == f,
        forall|k: int| 0 <= k < s.len() && k % 2 == 0 && k != 2 * j ==> #[trigger] s[k] != f,
    ensures
        given_in(s, f) == seq![s[2 * j + 1]],
{
    let a = s.take(2 * j);
    let b = seq![s[2 * j], s[2 * j + 1]];
    let c = s.skip(2 * j + 2);
    assert(s =~= a + b + c);
    assert forall|k: int| 0 <= k < a.len() && k % 2 == 0 implies #[trigger] a[k] != f by {
        assert(a[k] == s[k]);
    }
    assert forall|k: int| 0 <= k < c.len() && k % 2 == 0 implies #[trigger] c[k] != f by {
        assert(c[k] == s[k + 2 * j + 2]);
        assert((k + 2 * j + 2) % 2 == 0);
    }
    lemma_given_none(a, f);
    lemma_given_none(c, f);
    lemma_given_pair(s[2 * j], s[2 * j + 1], f);
    lemma_given_three(a, b, c, f);
    let e = Seq::<Seq<char>>::empty();
    assert(e + seq![s[2 * j + 1]] + e =~= seq![s[2 * j + 1]]);
}

/// Every command begins by asking for warnings alone, for progress reports on
/// standard output and for existing files to be left, never to be overwritten.
pub proof fn law_commands_overwrite_nothing(input: Seq<char>, output: Seq<char>, o: Settings)
    ensures
        ({
            let args = convert::ffmpeg_args(input, output, o);
            &&& args.len() > 8
            &&& args[1] == "-loglevel"@ && args[2] == "warning"@
            &&& args[3] == "-nostats"@
            &&& args[4] == "-progress"@ && args[5] == "pipe:1"@
            &&& args[6] == "-n"@
            &&& args[7] == "-ignore_unknown"@
            &&& forall|k: int| 0 <= k < 8 ==> #[trigger] args[k] != "-y"@
        }),
{
    let args = convert::ffmpeg_args(input, output, o);
    convert::law_globals_come_first(input, output, o);
    let g = args.take(8);
    reveal_strlit("-y");
    reveal_strlit("-hide_banner");
    reveal_strlit("-loglevel");
    reveal_strlit("warning");
    reveal_strlit("-nostats");
    reveal_strlit("-progress");
    reveal_strlit("pipe:1");
    reveal_strlit("-n");
    reveal_strlit("-ignore_unknown");
    assert(convert::global_args().len() == 8);
    assert("-n"@[1] == 'n' && "-y"@[1] == 'y');
    assert forall|k: int| 0 <= k < 8 implies #[trigger] args[k] != "-y"@ by {
        assert(args[k] == convert::global_args()[k]);
        assert(args[k].len() == 2 ==> k == 6);
    }
    assert(args[1] == g[1] && args[2] == g[2] && args[3] == g[3] && args[4] == g[4] && args[5]
        == g[5] && args[6] == g[6]);
    if o.profile == EncodingProfile::Hls {
        assert(args[8] == "-i"@);
    } else {
        convert::law_preamble_precedes_input(input, output, o);
    }
}

/// A backend is brought up before the source is opened, where it encodes: NVENC
/// decodes on the device, and VAAPI is told its device. In merge mode and for
/// the Web profile nothing comes before the source.
pub proof fn law_backend_comes_up_before_the_source(
    input: Seq<char>,
    output: Seq<char>,
    opts: EncodeOptions<'_>,
)
    requires
        opts.profile != EncodingProfile::Hls,
    ensures
        ({
            let args = convert::ffmpeg_args(input, output, opts@);
            let encodes = opts.profile == EncodingProfile::Standard && !opts.merge_only;
            if encodes && opts.backend == Backend::Nvenc {
                &&& args.subrange(8, 12) == seq![
                    "-hwaccel"@,
                    "cuda"@,
                    "-hwaccel_output_format"@,
                    "cuda"@,
                ]
                &&& args[12] == "-i"@ && args[13] == "file:"@ + input
            } else if encodes && opts.backend == Backend::Vaapi {
                &&& args.subrange(8, 10) == seq!["-vaapi_device"@, "/dev/dri/renderD128"@]
                &&& args[10] == "-i"@ && args[11] == "file:"@ + input
            } else {
                args[8] == "-i"@ && args[9] == "file:"@ + input
            }
        }),
{
    let o = opts@;
    let args = convert::ffmpeg_args(input, output, o);
    convert::law_preamble_precedes_input(input, output, o);
    let pre = convert::preamble_args(o);
    assert(args.take((8 + pre.len()) as int).skip(8) =~= pre);
    if opts.profile == EncodingProfile::Standard && !opts.merge_only {
        if opts.backend == Backend::Nvenc {
            assert(args.subrange(8, 12) =~= args.take(12).skip(8));
        } else if opts.backend == Backend::Vaapi {
            assert(args.subrange(8, 10) =~= args.take(10).skip(8));
        }
    }
}

/// Merge mode copies video and audio, and sets no quality, preset or filter.
#[verifier::spinoff_prover]
pub proof fn law_merging_copies(input: Seq<char>, output: Seq<char>, opts: EncodeOptions<'_>)
    requires
        opts.profile == EncodingProfile::Standard,
        opts.merge_only,
    ensures
        ({
            let args = convert::ffmpeg_args(input, output, opts@);
            let none = Seq::<Seq<char>>::empty();
            &&& given(args, "-c:v"@) == seq!["copy"@]
            &&& given(args, "-c:a"@) == seq!["copy"@]
            &&& forall|b: Backend| #[trigger] given(args, quality_flag_of(b)) == none
            &&& given(args, "-preset"@) == none
            &&& given(args, "-vf"@) == none
        }),
{
    lemma_flags();
    let o = opts@;
    let args = convert::ffmpeg_args(input, output, o);
    let video = seq!["-c:v"@, "copy"@];
    let audio = seq!["-c:a"@, "copy"@];
    assert forall|f: Seq<char>|
        (f == "-c:v"@ || f == "-c:a"@ || f == "-crf"@ || f == "-cq"@ || f == "-global_quality"@ || f
            == "-qp"@ || f == "-preset"@ || f == "-vf"@) implies #[trigger] given(args, f) == one(
        "-c:v"@,
        "copy"@,
        f,
    ) + one("-c:a"@, "copy"@, f) by {
        lemma_given_file(input, output, o, f);
        lemma_given_preamble(o, f);
        lemma_given_inputs(input, o, f);
        lemma_given_subtitles(o, f);
        lemma_given_languages(o, o.subtitles.len(), f);
        lemma_given_pair("-c:v"@, "copy"@, f);
        lemma_given_pair("-c:a"@, "copy"@, f);
        lemma_given_concat(video, audio, f);
        assert(convert::stream_args(o) =~= video + audio);
        let e = Seq::<Seq<char>>::empty();
        let g = given_in(convert::stream_args(o), f);
        assert((e + e) + e + (g + e + e) =~= g);
    }
    assert(given(args, "-c:v"@) =~= seq!["copy"@]);
    assert(given(args, "-c:a"@) =~= seq!["copy"@]);
    assert forall|b: Backend| #[trigger]
        given(args, quality_flag_of(b)) == Seq::<Seq<char>>::empty() by {
        assert(given(args, quality_flag_of(b)) =~= Seq::<Seq<char>>::empty());
    }
    assert(given(args, "-preset"@) =~= Seq::<Seq<char>>::empty());
    assert(given(args, "-vf"@) =~= Seq::<Seq<char>>::empty());
}

/// The flags of the Web profile, by the letters that tell them apart.
proof fn lemma_web_flags()
    ensures
        "-c:v"@.len() == 4 && "-c:v"@[1] == 'c' && "-c:v"@[2] == ':' && "-c:v"@[3] == 'v',
        "-preset"@.len() == 7 && "-preset"@[1] == 'p' && "-preset"@[2] == 'r' && "-preset"@[3] == 'e',
        "-crf"@.len() == 4 && "-crf"@[1] == 'c' && "-crf"@[2] == 'r' && "-crf"@[3] == 'f',
        "-profile:v"@.len() == 10 && "-profile:v"@[1] == 'p' && "-profile:v"@[2] == 'r' && "-profile:v"@[3] == 'o',
        "-level"@.len() == 6 && "-level"@[1] == 'l' && "-level"@[2] == 'e' && "-level"@[3] == 'v',
        "-pix_fmt"@.len() == 8 && "-pix_fmt"@[1] == 'p' && "-pix_fmt"@[2] == 'i' && "-pix_fmt"@[3] == 'x',
        "-c:a"@.len() == 4 && "-c:a"@[1] == 'c' && "-c:a"@[2] == ':' && "-c:a"@[3] == 'a',
        "-ac"@.len() == 3 && "-ac"@[1] == 'a' && "-ac"@[2] == 'c',
        "-b:a"@.len() == 4 && "-b:a"@[1] == 'b' && "-b:a"@[2] == ':' && "-b:a"@[3] == 'a',
        "-movflags"@.len() == 9 && "-movflags"@[1] == 'm' && "-movflags"@[2] == 'o' && "-movflags"@[3] == 'v',
{
    reveal_strlit("-c:v");
    reveal_strlit("-preset");
    reveal_strlit("-crf");
    reveal_strlit("-profile:v");
    reveal_strlit("-level");
    reveal_strlit("-pix_fmt");
    reveal_strlit("-c:a");
    reveal_strlit("-ac");
    reveal_strlit("-b:a");
    reveal_strlit("-movflags");
}

#[verifier::spinoff_prover]
proof fn lemma_given_web(input: Seq<char>, output: Seq<char>, o: Settings, j: int, f: Seq<char>)
    requires
        o.profile == EncodingProfile::Web,
        0 <= j < 10,
        convert::stream_args(o)[2 * j] == f,
    ensures
        given(convert::ffmpeg_args(input, output, o), f) == seq![convert::stream_args(o)[2 * j + 1]],
{
    lemma_web_flags();
    lemma_flags();
    let s = convert::stream_args(o);
    assert(s.len() == 20);
    assert forall|k: int| 0 <= k < s.len() && k % 2 == 0 && k != 2 * j implies #[trigger] s[k]
        != f by {}
    lemma_given_at(s, j, f);
    lemma_given_file(input, output, o, f);
    lemma_given_preamble(o, f);
    lemma_given_inputs(input, o, f);
    lemma_given_subtitles(o, f);
    lemma_given_languages(o, o.subtitles.len(), f);
    let e = Seq::<Seq<char>>::empty();
    let g = given_in(s, f);
    assert((e + e) + e + (g + e + e) =~= g);
}

/// Whatever else is asked for, the Web profile encodes H.264 for browsers: the
/// slow preset, a constant quality of 20, the high profile at level 4.0, with
/// stereo AAC at 192 kbit/s, laid out so that playing can begin at once; and it
/// filters nothing.
pub proof fn law_web_suits_browsers(input: Seq<char>, output: Seq<char>, opts: EncodeOptions<'_>)
    requires
        opts.profile == EncodingProfile::Web,
    ensures
        ({
            let args = convert::ffmpeg_args(input, output, opts@);
            &&& given(args, "-c:v"@) == seq!["libx264"@]
            &&& given(args, "-preset"@) == seq!["slow"@]
            &&& given(args, "-crf"@) == seq!["20"@]
            &&& given(args, "-profile:v"@) == seq!["high"@]
            &&& given(args, "-level"@) == seq!["4.0"@]
            &&& given(args, "-pix_fmt"@) == seq!["yuv420p"@]
            &&& given(args, "-c:a"@) == seq!["aac"@]
            &&& given(args, "-ac"@) == seq!["2"@]
            &&& given(args, "-b:a"@) == seq!["192k"@]
            &&& given(args, "-movflags"@) == seq!["+faststart"@]
            &&& given(args, "-vf"@) == Seq::<Seq<char>>::empty()
        }),
{
    let o = opts@;
    lemma_given_web(input, output, o, 0, "-c:v"@);
    lemma_given_web(input, output, o, 1, "-preset"@);
    lemma_given_web(input, output, o, 2, "-crf"@);
    lemma_given_web(input, output, o, 3, "-profile:v"@);
    lemma_given_web(input, output, o, 4, "-level"@);
    lemma_given_web(input, output, o, 5, "-pix_fmt"@);
    lemma_given_web(input, output, o, 6, "-c:a"@);
    lemma_given_web(input, output, o, 7, "-ac"@);
    lemma_given_web(input, output, o, 8, "-b:a"@);
    lemma_given_web(input, output, o, 9, "-movflags"@);
    lemma_web_flags();
    lemma_flags();
    let f = "-vf"@;
    let s = convert::stream_args(o);
    assert forall|k: int| 0 <= k < s.len() && k % 2 == 0 implies #[trigger] s[k] != f by {}
    lemma_given_none(s, f);
    lemma_given_file(input, output, o, f);
    lemma_given_preamble(o, f);
    lemma_given_inputs(input, o, f);
    lemma_given_subtitles(o, f);
    lemma_given_languages(o, o.subtitles.len(), f);
    let e = Seq::<Seq<char>>::empty();
    assert((e + e) + e + (e + e + e) =~= e);
}

// ------------------------------------------------------ inputs and subtitles --

/// The container that a command writes: MP4 for the Web profile.
pub open spec fn container_of(opts: EncodeOptions<'_>) -> Container {
    if opts.profile == EncodingProfile::Web {
        Container::Mp4
    } else {
        opts.container
    }
}

proof fn lemma_given_inputs_and_maps(input: Seq<char>, output: Seq<char>, o: Settings)
    requires
        o.profile != EncodingProfile::Hls,
    ensures
        given(convert::ffmpeg_args(input, output, o), "-i"@) == seq!["file:"@ + input] + Seq::new(
            o.subtitles.len(),
            |i: int| "file:"@ + o.subtitles[i].path,
        ),
        given(convert::ffmpeg_args(input, output, o), "-map"@) == maps(
            convert::written_container(o),
            o.unmappable,
            o.subtitles.len(),
        ),
{
    lemma_flags();
    let e = Seq::<Seq<char>>::empty();
    let s = convert::stream_args(o);
    assert forall|f: Seq<char>| (f == "-i"@ || f == "-map"@) implies #[trigger] given_in(s, f)
        == e by {
        lemma_streams_even(o);
        lemma_web_flags();
        assert forall|k: int| 0 <= k < s.len() && k % 2 == 0 implies #[trigger] s[k] != f by {
            lemma_stream_flags(o, k);
        }
        lemma_given_none(s, f);
    }
    let i = "-i"@;
    let m = "-map"@;
    lemma_given_file(input, output, o, i);
    lemma_given_preamble(o, i);
    lemma_given_inputs(input, o, i);
    lemma_given_subtitles(o, i);
    lemma_given_languages(o, o.subtitles.len(), i);
    let g = given_in(convert::input_args(input, o), i);
    assert((e + g) + e + (e + e + e) =~= g);
    lemma_given_file(input, output, o, m);
    lemma_given_preamble(o, m);
    lemma_given_inputs(input, o, m);
    lemma_given_subtitles(o, m);
    lemma_given_languages(o, o.subtitles.len(), m);
    let h = given_in(map_part(o), m);
    assert((e + e) + h + (e + e + e) =~= h);
}

/// The flags of video and audio settings name no input and no map, and set no
/// metadata and no other codec.
#[verifier::spinoff_prover]
proof fn lemma_stream_flags(o: Settings, k: int)
    requires
        0 <= k < convert::stream_args(o).len(),
        k % 2 == 0,
    ensures
        convert::stream_args(o)[k].len() >= 3,
        convert::stream_args(o)[k] != "-map"@,
        !sets_codec(convert::stream_args(o)[k]),
        !(convert::stream_args(o)[k][1] == 'm' && convert::stream_args(o)[k][2] == 'e'),
{
    lemma_flags();
    lemma_web_flags();
    let s = convert::stream_args(o);
    if !convert::copies_video(o) && o.profile != EncodingProfile::Web {
        let filter: Seq<Seq<char>> = match convert::filter_chain(o.upscale, o.backend) {
            Some(v) => seq!["-vf"@, v],
            None => Seq::empty(),
        };
        let n = filter.len();
        if k < n {
            assert(s[k] == filter[k]);
        } else {
            let rest = s.skip(n as int);
            assert(s[k] == rest[k - n]);
            assert(rest[0] == "-c:v"@);
            assert(rest[2] == backend::quality_flag(o.backend));
            assert(rest.len() <= 10);
        }
    }
}

/// The streams that a command takes: from the source what its container holds,
/// less the streams that are to be dropped, in this order; and behind them every
/// subtitle file.
pub proof fn law_streams_that_are_taken(
    input: Seq<char>,
    output: Seq<char>,
    opts: EncodeOptions<'_>,
)
    requires
        opts.profile != EncodingProfile::Hls,
    ensures
        ({
            let taken = given(convert::ffmpeg_args(input, output, opts@), "-map"@);
            let from = source_streams(container_of(opts)).len();
            let dropped = opts.unmappable_stream_indices@.len();
            let files = opts.subtitles@.len();
            &&& taken.len() == from + dropped + files
            &&& taken.take(from as int) == source_streams(container_of(opts))
            &&& forall|i: int|
                0 <= i < dropped ==> #[trigger] taken[from + i] == "-0:"@ + text::decimal(
                    opts.unmappable_stream_indices@[i] as nat,
                )
            &&& forall|k: int|
                0 <= k < files ==> #[trigger] taken[from + dropped + k] == text::decimal(
                    (k + 1) as nat,
                )
        }),
{
    let o = opts@;
    lemma_given_inputs_and_maps(input, output, o);
    let taken = given(convert::ffmpeg_args(input, output, o), "-map"@);
    let from = source_streams(container_of(opts)).len();
    assert(taken.take(from as int) =~= source_streams(container_of(opts)));
}

proof fn lemma_given_language(o: Settings, k: nat, i: int)
    requires
        0 <= i < o.subtitles.len(),
        k <= o.subtitles.len(),
    ensures
        given_in(
            convert::language_args(o, k),
            "-metadata:s:s:"@ + text::decimal((o.source_subtitle_codecs.len() + i) as nat),
        ) == if i < k && o.subtitles[i].language is Some {
            seq!["language="@ + o.subtitles[i].language->0]
        } else {
            Seq::empty()
        },
    decreases k,
{
    let n = o.source_subtitle_codecs.len();
    let f = "-metadata:s:s:"@ + text::decimal((n + i) as nat);
    if k > 0 {
        lemma_given_language(o, (k - 1) as nat, i);
        lemma_given_languages(o, (k - 1) as nat, f);
        let before = convert::language_args(o, (k - 1) as nat);
        match o.subtitles[k - 1].language {
            Some(lang) => {
                let flag = "-metadata:s:s:"@ + text::decimal((n + k - 1) as nat);
                let last = seq![flag, "language="@ + lang];
                assert(convert::language_args(o, k) == before + last);
                lemma_given_concat(before, last, f);
                lemma_given_pair(flag, "language="@ + lang, f);
                if i != k - 1 {
                    convert::law_stream_settings_are_distinct((n + i) as nat, (n + k - 1) as nat);
                }
                assert(given_in(convert::language_args(o, k), f) =~= if i < k
                    && o.subtitles[i].language is Some {
                    seq!["language="@ + o.subtitles[i].language->0]
                } else {
                    Seq::empty()
                });
            },
            None => {
                assert(convert::language_args(o, k) =~= before);
            },
        }
    }
}

/// Each subtitle file becomes the subtitle stream that is tagged with its own
/// language: the file is an input behind the source, the maps of these inputs
/// stand in the order of the files behind those of the source, and so the
/// language of the file in place `k` is that of the stream `k` places behind the
/// subtitle streams of the source. A file without a language leaves its stream
/// untagged.
pub proof fn law_subtitle_files_keep_their_languages(
    input: Seq<char>,
    output: Seq<char>,
    opts: EncodeOptions<'_>,
    k: int,
)
    requires
        opts.profile != EncodingProfile::Hls,
        0 <= k < opts.subtitles@.len(),
    ensures
        ({
            let args = convert::ffmpeg_args(input, output, opts@);
            let inputs = given(args, "-i"@);
            let taken = given(args, "-map"@);
            let files = opts.subtitles@.len();
            let stream = opts.source_subtitle_codecs@.len() + k;
            &&& inputs.len() == files + 1
            &&& inputs[0] == "file:"@ + input
            &&& inputs[k + 1] == "file:"@ + opts.subtitles@[k].path@
            &&& taken.len() >= files
            &&& taken[taken.len() - files + k] == text::decimal((k + 1) as nat)
            &&& given(args, "-metadata:s:s:"@ + text::decimal(stream as nat))
                == match opts.subtitles@[k].language {
                Some(lang) => seq!["language="@ + lang@],
                None => Seq::<Seq<char>>::empty(),
            }
        }),
{
    let o = opts@;
    let args = convert::ffmpeg_args(input, output, o);
    lemma_given_inputs_and_maps(input, output, o);
    law_streams_that_are_taken(input, output, opts);
    assert(o.subtitles[k] == opts.subtitles@[k]@);
    let f = "-metadata:s:s:"@ + text::decimal((o.source_subtitle_codecs.len() + k) as nat);
    reveal_strlit("-metadata:s:s:");
    lemma_flags();
    assert(f.len() >= 3 && f[1] == 'm' && f[2] == 'e');
    let s = convert::stream_args(o);
    lemma_streams_even(o);
    assert forall|j: int| 0 <= j < s.len() && j % 2 == 0 implies #[trigger] s[j] != f by {
        lemma_stream_flags(o, j);
    }
    lemma_given_none(s, f);
    lemma_given_file(input, output, o, f);
    lemma_given_preamble(o, f);
    lemma_given_inputs(input, o, f);
    lemma_given_subtitles(o, f);
    lemma_given_language(o, o.subtitles.len(), k);
    let e = Seq::<Seq<char>>::empty();
    let g = given_in(convert::language_args(o, o.subtitles.len()), f);
    assert((e + e) + e + (e + e + g) =~= g);
}

proof fn lemma_given_codec(input: Seq<char>, output: Seq<char>, o: Settings, f: Seq<char>)
    requires
        o.profile != EncodingProfile::Hls,
        sets_codec(f),
    ensures
        given(convert::ffmpeg_args(input, output, o), f) == given_in(convert::subtitle_args(o), f),
{
    lemma_flags();
    let s = convert::stream_args(o);
    lemma_streams_even(o);
    assert forall|j: int| 0 <= j < s.len() && j % 2 == 0 implies #[trigger] s[j] != f by {
        lemma_stream_flags(o, j);
    }
    lemma_given_none(s, f);
    lemma_given_file(input, output, o, f);
    lemma_given_preamble(o, f);
    lemma_given_inputs(input, o, f);
    lemma_given_languages(o, o.subtitles.len(), f);
    let e = Seq::<Seq<char>>::empty();
    let g = given_in(convert::subtitle_args(o), f);
    assert((e + e) + e + (e + g + e) =~= g);
}

/// The codec settings of all subtitle streams in MKV, the added files included.
spec fn stream_codec_args(o: Settings) -> Seq<Seq<char>> {
    convert::pairs(
        o.source_subtitle_codecs.len() + o.subtitles.len(),
        |i: int| "-c:s:"@ + text::decimal(i as nat),
        |i: int|
            if i < o.source_subtitle_codecs.len() && o.source_subtitle_codecs[i] == "mov_text"@ {
                "srt"@
            } else {
                "copy"@
            },
    )
}

proof fn lemma_subtitle_parts(o: Settings)
    requires
        convert::written_container(o) == Container::Mkv,
        o.source_subtitle_codecs.len() > 0,
    ensures
        convert::subtitle_args(o) == stream_codec_args(o) + seq!["-c:d"@, "copy"@] + seq![
            "-c:t"@,
            "copy"@,
        ],
{
    let s = convert::subtitle_args(o);
    let t = stream_codec_args(o) + seq!["-c:d"@, "copy"@] + seq!["-c:t"@, "copy"@];
    let n = o.source_subtitle_codecs.len() + o.subtitles.len();
    assert(s.len() == t.len());
    assert forall|j: int| 0 <= j < s.len() implies s[j] == t[j] by {
        if j < 2 * n {
            let k = j / 2;
            convert::law_mkv_subtitle_codecs(o, k);
            assert(j == 2 * k || j == 2 * k + 1);
            assert(j % 2 == 0 ==> j == 2 * k);
        }
    }
    assert(s =~= t);
}

proof fn lemma_given_stream_codec(o: Settings, k: int)
    requires
        convert::written_container(o) == Container::Mkv,
        o.source_subtitle_codecs.len() > 0,
        0 <= k < o.source_subtitle_codecs.len() + o.subtitles.len(),
    ensures
        given_in(convert::subtitle_args(o), "-c:s:"@ + text::decimal(k as nat)) == seq![
            if k < o.source_subtitle_codecs.len() && o.source_subtitle_codecs[k] == "mov_text"@ {
                "srt"@
            } else {
                "copy"@
            },
        ],
{
    reveal_strlit("-c:s:");
    reveal_strlit("-c:d");
    reveal_strlit("-c:t");
    let f = "-c:s:"@ + text::decimal(k as nat);
    let s = stream_codec_args(o);
    lemma_subtitle_parts(o);
    assert((2 * k) / 2 == k && (2 * k) % 2 == 0 && (2 * k + 1) / 2 == k && (2 * k + 1) % 2 == 1);
    assert forall|j: int| 0 <= j < s.len() && j % 2 == 0 && j != 2 * k implies #[trigger] s[j]
        != f by {
        assert(s[j] == "-c:s:"@ + text::decimal((j / 2) as nat));
        convert::law_stream_settings_are_distinct((j / 2) as nat, k as nat);
    }
    lemma_given_at(s, k, f);
    let d = seq!["-c:d"@, "copy"@];
    let t = seq!["-c:t"@, "copy"@];
    lemma_given_three(s, d, t, f);
    lemma_given_pair("-c:d"@, "copy"@, f);
    lemma_given_pair("-c:t"@, "copy"@, f);
    assert(f[3] == 's' && "-c:d"@[3] == 'd' && "-c:t"@[3] == 't');
    let e = Seq::<Seq<char>>::empty();
    let g = given_in(s, f);
    assert(g + e + e =~= g);
}

proof fn lemma_given_common_codec(o: Settings, f: Seq<char>)
    requires
        f == "-c:s"@ || f == "-c:d"@ || f == "-c:t"@,
    ensures
        given_in(convert::subtitle_args(o), f) == match convert::written_container(o) {
            Container::Mkv => if f == "-c:s"@ && o.source_subtitle_codecs.len() > 0 {
                Seq::<Seq<char>>::empty()
            } else {
                seq!["copy"@]
            },
            Container::Mp4 => if f == "-c:s"@ {
                seq!["mov_text"@]
            } else {
                Seq::<Seq<char>>::empty()
            },
        },
{
    reveal_strlit("-c:s");
    reveal_strlit("-c:s:");
    reveal_strlit("-c:d");
    reveal_strlit("-c:t");
    assert("-c:s"@.len() == 4 && "-c:d"@.len() == 4 && "-c:t"@.len() == 4 && "-c:s:"@.len() == 5);
    assert("-c:s"@[3] == 's' && "-c:d"@[3] == 'd' && "-c:t"@[3] == 't');
    let d = seq!["-c:d"@, "copy"@];
    let t = seq!["-c:t"@, "copy"@];
    lemma_given_pair("-c:d"@, "copy"@, f);
    lemma_given_pair("-c:t"@, "copy"@, f);
    let e = Seq::<Seq<char>>::empty();
    match convert::written_container(o) {
        Container::Mkv => {
            if o.source_subtitle_codecs.len() > 0 {
                let s = stream_codec_args(o);
                lemma_subtitle_parts(o);
                assert forall|j: int| 0 <= j < s.len() && j % 2 == 0 implies #[trigger] s[j]
                    != f by {
                    text::lemma_decimal_digits((j / 2) as nat);
                    assert(s[j].len() > 5);
                }
                lemma_given_none(s, f);
                lemma_given_three(s, d, t, f);
                assert(given_in(convert::subtitle_args(o), f) =~= e + one("-c:d"@, "copy"@, f)
                    + one("-c:t"@, "copy"@, f));
                assert(e + one("-c:d"@, "copy"@, f) + one("-c:t"@, "copy"@, f) =~= if f == "-c:s"@ {
                    e
                } else {
                    seq!["copy"@]
                });
            } else {
                let s = seq!["-c:s"@, "copy"@];
                lemma_given_pair("-c:s"@, "copy"@, f);
                lemma_given_three(s, d, t, f);
                assert(convert::subtitle_args(o) =~= s + d + t);
                assert(one("-c:s"@, "copy"@, f) + one("-c:d"@, "copy"@, f) + one("-c:t"@, "copy"@, f)
                    =~= seq!["copy"@]);
            }
        },
        Container::Mp4 => {
            lemma_given_pair("-c:s"@, "mov_text"@, f);
        },
    }
}

/// What becomes of subtitles: in MP4 they become `mov_text`, and there are no
/// data streams and attachments; in MKV each stream is copied, save that a
/// source stream which is `mov_text` becomes SRT, and data and attachments are
/// copied.
#[verifier::spinoff_prover]
pub proof fn law_what_becomes_of_subtitles(
    input: Seq<char>,
    output: Seq<char>,
    opts: EncodeOptions<'_>,
)
    requires
        opts.profile != EncodingProfile::Hls,
    ensures
        ({
            let args = convert::ffmpeg_args(input, output, opts@);
            let n = opts.source_subtitle_codecs@.len();
            let none = Seq::<Seq<char>>::empty();
            match container_of(opts) {
                Container::Mp4 => {
                    &&& given(args, "-c:s"@) == seq!["mov_text"@]
                    &&& given(args, "-c:d"@) == none
                    &&& given(args, "-c:t"@) == none
                },
                Container::Mkv => {
                    &&& given(args, "-c:d"@) == seq!["copy"@]
                    &&& given(args, "-c:t"@) == seq!["copy"@]
                    &&& given(args, "-c:s"@) == if n == 0 {
                        seq!["copy"@]
                    } else {
                        none
                    }
                    &&& n > 0 ==> forall|k: int|
                        0 <= k < n + opts.subtitles@.len() ==> #[trigger] given(
                            args,
                            "-c:s:"@ + text::decimal(k as nat),
                        ) == seq![
                            if k < n && opts.source_subtitle_codecs@[k]@ == "mov_text"@ {
                                "srt"@
                            } else {
                                "copy"@
                            },
                        ]
                },
            }
        }),
{
    reveal_strlit("-c:s");
    reveal_strlit("-c:s:");
    reveal_strlit("-c:d");
    reveal_strlit("-c:t");
    let o = opts@;
    let args = convert::ffmpeg_args(input, output, o);
    let n = opts.source_subtitle_codecs@.len();
    assert("-c:s"@[3] == 's' && "-c:d"@[3] == 'd' && "-c:t"@[3] == 't');
    lemma_given_codec(input, output, o, "-c:s"@);
    lemma_given_codec(input, output, o, "-c:d"@);
    lemma_given_codec(input, output, o, "-c:t"@);
    lemma_given_common_codec(o, "-c:s"@);
    lemma_given_common_codec(o, "-c:d"@);
    lemma_given_common_codec(o, "-c:t"@);
    if container_of(opts) == Container::Mkv && n > 0 {
        assert forall|k: int| 0 <= k < n + opts.subtitles@.len() implies #[trigger] given(
            args,
            "-c:s:"@ + text::decimal(k as nat),
        ) == seq![
            if k < n && opts.source_subtitle_codecs@[k]@ == "mov_text"@ {
                "srt"@
            } else {
                "copy"@
            },
        ] by {
            let f = "-c:s:"@ + text::decimal(k as nat);
            assert(f[1] == 'c' && f[2] == ':' && f[3] == 's');
            lemma_given_codec(input, output, o, f);
            lemma_given_stream_codec(o, k);
        }
    }
}

// ------------------------------------------------------------- HLS bundles --

/// The flags of a rendition's settings without the number of their stream, by
/// their place among its options.
spec fn prefix(p: int) -> Seq<char> {
    if p == 2 {
        "-c:v:"@
    } else if p == 3 {
        "-b:v:"@
    } else if p == 4 {
        "-maxrate:v:"@
    } else if p == 5 {
        "-bufsize:v:"@
    } else if p == 6 {
        "-profile:v:"@
    } else if p == 7 {
        "-level:v:"@
    } else if p == 8 {
        "-force_key_frames:v:"@
    } else if p == 9 {
        "-c:a:"@
    } else if p == 10 {
        "-ac:a:"@
    } else {
        "-b:a:"@
    }
}

/// The flags of a rendition's settings are different ones.
proof fn lemma_prefixes(p: int, q: int)
    requires
        2 <= p < 12,
        2 <= q < 12,
        p != q,
    ensures
        prefix(p) != prefix(q),
        prefix(p).len() >= 5,
{
    reveal_strlit("-c:v:");
    reveal_strlit("-b:v:");
    reveal_strlit("-maxrate:v:");
    reveal_strlit("-bufsize:v:");
    reveal_strlit("-profile:v:");
    reveal_strlit("-level:v:");
    reveal_strlit("-force_key_frames:v:");
    reveal_strlit("-c:a:");
    reveal_strlit("-ac:a:");
    reveal_strlit("-b:a:");
    assert("-c:v:"@.len() == 5 && "-c:v:"@[1] == 'c' && "-c:v:"@[3] == 'v');
    assert("-b:v:"@.len() == 5 && "-b:v:"@[1] == 'b' && "-b:v:"@[3] == 'v');
    assert("-maxrate:v:"@.len() == 11 && "-maxrate:v:"@[1] == 'm' && "-maxrate:v:"@[3] == 'x');
    assert("-bufsize:v:"@.len() == 11 && "-bufsize:v:"@[1] == 'b' && "-bufsize:v:"@[3] == 'f');
    assert("-profile:v:"@.len() == 11 && "-profile:v:"@[1] == 'p' && "-profile:v:"@[3] == 'o');
    assert("-level:v:"@.len() == 9 && "-level:v:"@[1] == 'l' && "-level:v:"@[3] == 'v');
    assert("-force_key_frames:v:"@.len() == 20 && "-force_key_frames:v:"@[1] == 'f' && "-force_key_frames:v:"@[3] == 'r');
    assert("-c:a:"@.len() == 5 && "-c:a:"@[1] == 'c' && "-c:a:"@[3] == 'a');
    assert("-ac:a:"@.len() == 6 && "-ac:a:"@[1] == 'a' && "-ac:a:"@[3] == ':');
    assert("-b:a:"@.len() == 5 && "-b:a:"@[1] == 'b' && "-b:a:"@[3] == 'a');
}

#[verifier::spinoff_prover]
proof fn lemma_rendition_flags(i: nat, r: profile::Rendition, p: int)
    requires
        2 <= p < 12,
    ensures
        convert::rendition_args(i, r).len() == 24,
        convert::rendition_args(i, r)[0] == "-map"@,
        convert::rendition_args(i, r)[2] == "-map"@,
        convert::rendition_args(i, r)[2 * p] == prefix(p) + text::decimal(i),
{
    reveal_strlit("-ac");
    reveal_strlit("-b");
    reveal_strlit("-bufsize");
    reveal_strlit("-c");
    reveal_strlit("-force_key_frames");
    reveal_strlit("-level");
    reveal_strlit("-maxrate");
    reveal_strlit("-profile");
    reveal_strlit(":a:");
    reveal_strlit(":v:");
    reveal_strlit("-c:v:");
    reveal_strlit("-b:v:");
    reveal_strlit("-maxrate:v:");
    reveal_strlit("-bufsize:v:");
    reveal_strlit("-profile:v:");
    reveal_strlit("-level:v:");
    reveal_strlit("-force_key_frames:v:");
    reveal_strlit("-c:a:");
    reveal_strlit("-ac:a:");
    reveal_strlit("-b:a:");
    assert("-c"@ + ":v:"@ =~= "-c:v:"@);
    assert("-b"@ + ":v:"@ =~= "-b:v:"@);
    assert("-maxrate"@ + ":v:"@ =~= "-maxrate:v:"@);
    assert("-bufsize"@ + ":v:"@ =~= "-bufsize:v:"@);
    assert("-profile"@ + ":v:"@ =~= "-profile:v:"@);
    assert("-level"@ + ":v:"@ =~= "-level:v:"@);
    assert("-force_key_frames"@ + ":v:"@ =~= "-force_key_frames:v:"@);
    assert("-c"@ + ":a:"@ =~= "-c:a:"@);
    assert("-ac"@ + ":a:"@ =~= "-ac:a:"@);
    assert("-b"@ + ":a:"@ =~= "-b:a:"@);
}

/// What rendition `j` sets under the flag in place `p` of rendition `i`: its own
/// value, where it is that rendition, and else nothing.
#[verifier::spinoff_prover]
proof fn lemma_given_rendition(i: nat, p: int, j: nat, r: profile::Rendition)
    requires
        2 <= p < 12,
        i < 10,
        j < 10,
    ensures
        given_in(convert::rendition_args(j, r), prefix(p) + text::decimal(i)) == if i == j {
            seq![convert::rendition_args(j, r)[2 * p + 1]]
        } else {
            Seq::empty()
        },
{
    let f = prefix(p) + text::decimal(i);
    let s = convert::rendition_args(j, r);
    reveal_strlit("-map");
    lemma_rendition_flags(j, r, p);
    assert(text::decimal(i) == seq![text::digit(i)]);
    assert(text::decimal(j) == seq![text::digit(j)]);
    lemma_prefixes(p, if p == 2 {
        3int
    } else {
        2int
    });
    assert(f.last() == text::digit(i));
    assert forall|k: int|
        0 <= k < s.len() && k % 2 == 0 && (i != j || k != 2 * p) implies #[trigger] s[k] != f by {
        let q = k / 2;
        assert(k == 2 * q);
        if q < 2 {
            assert(s[k] == "-map"@);
            assert("-map"@.len() == 4);
        } else {
            lemma_rendition_flags(j, r, q);
            assert(s[k].last() == text::digit(j));
            if i != j {
                assert(text::digit(i) != text::digit(j));
            } else {
                lemma_prefixes(p, q);
                if s[k] == f {
                    assert(prefix(q).len() == prefix(p).len());
                    assert(prefix(q) =~= s[k].take(s[k].len() - 1));
                    assert(prefix(p) =~= f.take(f.len() - 1));
                }
            }
        }
    }
    if i == j {
        lemma_given_at(s, p, f);
    } else {
        lemma_given_none(s, f);
    }
}

/// The flags of a bundle that are not settings of a rendition, by their lengths
/// and the letters at their ends.
proof fn lemma_bundle_flags()
    ensures
        "-i"@.len() == 2 && "-i"@[1] == 'i' && "-i"@[1] == 'i',
        "-filter_complex"@.len() == 15 && "-filter_complex"@[1] == 'f' && "-filter_complex"@[14] == 'x',
        "-map"@.len() == 4 && "-map"@[1] == 'm' && "-map"@[3] == 'p',
        "-preset"@.len() == 7 && "-preset"@[1] == 'p' && "-preset"@[6] == 't' && "-preset"@[2] == 'r',
        "-pix_fmt"@.len() == 8 && "-pix_fmt"@[1] == 'p' && "-pix_fmt"@[7] == 't' && "-pix_fmt"@[2] == 'i',
        "-sc_threshold"@.len() == 13 && "-sc_threshold"@[1] == 's' && "-sc_threshold"@[12] == 'd',
        "-f"@.len() == 2 && "-f"@[1] == 'f' && "-f"@[1] == 'f',
        "-hls_time"@.len() == 9 && "-hls_time"@[1] == 'h' && "-hls_time"@[8] == 'e',
        "-hls_playlist_type"@.len() == 18 && "-hls_playlist_type"@[1] == 'h' && "-hls_playlist_type"@[17] == 'e',
        "-hls_flags"@.len() == 10 && "-hls_flags"@[1] == 'h' && "-hls_flags"@[9] == 's',
        "-hls_segment_type"@.len() == 17 && "-hls_segment_type"@[1] == 'h' && "-hls_segment_type"@[16] == 'e',
        "-hls_list_size"@.len() == 14 && "-hls_list_size"@[1] == 'h' && "-hls_list_size"@[13] == 'e',
        "-hls_segment_filename"@.len() == 21 && "-hls_segment_filename"@[1] == 'h' && "-hls_segment_filename"@[20] == 'e',
        "-master_pl_name"@.len() == 15 && "-master_pl_name"@[1] == 'm' && "-master_pl_name"@[14] == 'e',
        "-var_stream_map"@.len() == 15 && "-var_stream_map"@[1] == 'v' && "-var_stream_map"@[14] == 'p',
{
    reveal_strlit("-i");
    reveal_strlit("-filter_complex");
    reveal_strlit("-map");
    reveal_strlit("-preset");
    reveal_strlit("-pix_fmt");
    reveal_strlit("-sc_threshold");
    reveal_strlit("-f");
    reveal_strlit("-hls_time");
    reveal_strlit("-hls_playlist_type");
    reveal_strlit("-hls_flags");
    reveal_strlit("-hls_segment_type");
    reveal_strlit("-hls_list_size");
    reveal_strlit("-hls_segment_filename");
    reveal_strlit("-master_pl_name");
    reveal_strlit("-var_stream_map");
}

/// The options of a bundle that are not settings of a rendition.
spec fn bundle_head(input: Seq<char>) -> Seq<Seq<char>> {
    seq!["-i"@, "file:"@ + input] + seq![
        "-filter_complex"@,
        convert::hls_filter(profile::ladder()),
    ]
}

spec fn bundle_tail(output: Seq<char>) -> Seq<Seq<char>> {
    convert::shared_hls_args() + convert::muxer_args(output, profile::ladder()).drop_last()
}

spec fn bundle_part(i: int) -> Seq<Seq<char>> {
    convert::rendition_args(i as nat, profile::ladder()[i])
}

#[verifier::spinoff_prover]
proof fn lemma_bundle_groups(input: Seq<char>, output: Seq<char>)
    ensures
        convert::hls_args(input, output) == convert::global_args() + (bundle_head(input) + (
        bundle_part(0) + bundle_part(1) + bundle_part(2)) + bundle_tail(output)) + seq![
            convert::muxer_args(output, profile::ladder()).last(),
        ],
        convert::global_args().len() == 8,
        bundle_head(input).len() == 4,
        bundle_tail(output).len() == 24,
{
    let l = profile::ladder();
    reveal_with_fuel(convert::renditions_args, 4);
    assert(convert::renditions_args(l, 3) =~= bundle_part(0) + bundle_part(1) + bundle_part(2));
    let m = convert::muxer_args(output, l);
    assert(m.len() == 19);
    lemma_regroup_bundle(
        convert::global_args(),
        seq!["-i"@, "file:"@ + input],
        seq!["-filter_complex"@, convert::hls_filter(l)],
        convert::renditions_args(l, 3),
        convert::shared_hls_args(),
        m,
    );
}

proof fn lemma_regroup_bundle(
    g: Seq<Seq<char>>,
    a: Seq<Seq<char>>,
    b: Seq<Seq<char>>,
    r: Seq<Seq<char>>,
    c: Seq<Seq<char>>,
    m: Seq<Seq<char>>,
)
    requires
        m.len() > 0,
    ensures
        g + a + b + r + c + m == g + ((a + b) + r + (c + m.drop_last())) + seq![m.last()],
{
    assert(g + a + b + r + c + m =~= g + ((a + b) + r + (c + m.drop_last())) + seq![m.last()]);
}

proof fn lemma_given_bundle(input: Seq<char>, output: Seq<char>, f: Seq<char>)
    ensures
        given(convert::hls_args(input, output), f) == given_in(bundle_head(input), f) + (given_in(
            bundle_part(0),
            f,
        ) + given_in(bundle_part(1), f) + given_in(bundle_part(2), f)) + given_in(
            bundle_tail(output),
            f,
        ),
{
    lemma_bundle_groups(input, output);
    let parts = bundle_part(0) + bundle_part(1) + bundle_part(2);
    lemma_given_three(bundle_part(0), bundle_part(1), bundle_part(2), f);
    lemma_given_three(bundle_head(input), parts, bundle_tail(output), f);
    lemma_middle(
        convert::global_args(),
        bundle_head(input) + parts + bundle_tail(output),
        convert::muxer_args(output, profile::ladder()).last(),
        f,
    );
}

#[verifier::spinoff_prover]
proof fn lemma_given_setting(input: Seq<char>, output: Seq<char>, i: int, p: int)
    requires
        0 <= i < 3,
        2 <= p < 12,
    ensures
        given(convert::hls_args(input, output), prefix(p) + text::decimal(i as nat)) == seq![
            bundle_part(i)[2 * p + 1],
        ],
{
    let f = prefix(p) + text::decimal(i as nat);
    assert(text::decimal(i as nat) == seq![text::digit(i as nat)]);
    assert(f[f.len() - 1] == text::digit(i as nat));
    lemma_bundle_flags();
    lemma_bundle_groups(input, output);
    let a = bundle_head(input);
    let z = bundle_tail(output);
    assert forall|k: int| 0 <= k < a.len() && k % 2 == 0 implies #[trigger] a[k] != f by {
        let t = a[k];
        assert(t[t.len() - 1] != f[f.len() - 1]);
    }
    assert forall|k: int| 0 <= k < z.len() && k % 2 == 0 implies #[trigger] z[k] != f by {
        let t = z[k];
        assert(t[t.len() - 1] != f[f.len() - 1]);
    }
    lemma_given_none(a, f);
    lemma_given_none(z, f);
    lemma_given_rendition(i as nat, p, 0, profile::ladder()[0]);
    lemma_given_rendition(i as nat, p, 1, profile::ladder()[1]);
    lemma_given_rendition(i as nat, p, 2, profile::ladder()[2]);
    lemma_given_bundle(input, output, f);
    let v = seq![bundle_part(i)[2 * p + 1]];
    let e = Seq::<Seq<char>>::empty();
    assert(e + (v + e + e) + e =~= v);
    assert(e + (e + v + e) + e =~= v);
    assert(e + (e + e + v) + e =~= v);
}

proof fn lemma_given_first_two(s: Seq<Seq<char>>, f: Seq<char>)
    requires
        s.len() % 2 == 0,
        s.len() >= 4,
        s[0] == f,
        s[2] == f,
        forall|k: int| 4 <= k < s.len() && k % 2 == 0 ==> #[trigger] s[k] != f,
    ensures
        given_in(s, f) == seq![s[1], s[3]],
{
    let a = seq![s[0], s[1]];
    let b = seq![s[2], s[3]];
    let c = s.skip(4);
    assert(s =~= a + b + c);
    assert forall|k: int| 0 <= k < c.len() && k % 2 == 0 implies #[trigger] c[k] != f by {
        assert(c[k] == s[k + 4]);
        assert((k + 4) % 2 == 0);
    }
    lemma_given_none(c, f);
    lemma_given_pair(s[0], s[1], f);
    lemma_given_pair(s[2], s[3], f);
    lemma_given_three(a, b, c, f);
    let e = Seq::<Seq<char>>::empty();
    assert(seq![s[1]] + seq![s[3]] + e =~= seq![s[1], s[3]]);
}

#[verifier::spinoff_prover]
proof fn lemma_given_part_maps(i: int)
    requires
        0 <= i < 3,
    ensures
        given_in(bundle_part(i), "-map"@) == seq![bundle_part(i)[1], "0:a:0?"@],
{
    let s = bundle_part(i);
    let r = profile::ladder()[i];
    lemma_rendition_flags(i as nat, r, 2);
    let f = "-map"@;
    assert forall|k: int| 4 <= k < s.len() && k % 2 == 0 implies #[trigger] s[k] != f by {
        let q = k / 2;
        assert(k == 2 * q);
        lemma_bundle_flags();
        lemma_rendition_flags(i as nat, r, q);
        lemma_prefixes(q, if q == 2 {
            3int
        } else {
            2int
        });
    }
    lemma_given_first_two(s, f);
}

/// The value for one of the three renditions.
pub open spec fn pick(i: int, a: Seq<char>, b: Seq<char>, c: Seq<char>) -> Seq<char> {
    if i == 0 {
        a
    } else if i == 1 {
        b
    } else {
        c
    }
}

/// A bundle takes two streams for each rendition: its own scaled video, and the
/// first audio stream of the source, which is the same for all.
#[verifier::spinoff_prover]
pub proof fn law_renditions_share_the_first_audio_stream(
    input: Seq<char>,
    output: Seq<char>,
    opts: EncodeOptions<'_>,
)
    requires
        opts.profile == EncodingProfile::Hls,
    ensures
        given(convert::ffmpeg_args(input, output, opts@), "-map"@) == seq![
            "[v360p]"@,
            "0:a:0?"@,
            "[v720p]"@,
            "0:a:0?"@,
            "[v1080p]"@,
            "0:a:0?"@,
        ],
{
    let f = "-map"@;
    lemma_bundle_flags();
    lemma_bundle_groups(input, output);
    let a = bundle_head(input);
    let z = bundle_tail(output);
    assert forall|k: int| 0 <= k < a.len() && k % 2 == 0 implies #[trigger] a[k] != f by {}
    assert forall|k: int| 0 <= k < z.len() && k % 2 == 0 implies #[trigger] z[k] != f by {}
    lemma_given_none(a, f);
    lemma_given_none(z, f);
    lemma_given_part_maps(0);
    lemma_given_part_maps(1);
    lemma_given_part_maps(2);
    lemma_given_bundle(input, output, f);
    reveal_strlit("[v");
    reveal_strlit("]");
    reveal_strlit("360p");
    reveal_strlit("720p");
    reveal_strlit("1080p");
    reveal_strlit("[v360p]");
    reveal_strlit("[v720p]");
    reveal_strlit("[v1080p]");
    assert("[v"@ + "360p"@ + "]"@ =~= "[v360p]"@);
    assert("[v"@ + "720p"@ + "]"@ =~= "[v720p]"@);
    assert("[v"@ + "1080p"@ + "]"@ =~= "[v1080p]"@);
    assert(given(convert::hls_args(input, output), f) =~= seq![
        "[v360p]"@,
        "0:a:0?"@,
        "[v720p]"@,
        "0:a:0?"@,
        "[v1080p]"@,
        "0:a:0?"@,
    ]);
}

/// The settings of each rendition: H.264 at its own bitrate, cap, buffer, profile
/// and level, and stereo AAC at its own bitrate, each given once for the streams
/// of that rendition.
#[verifier::spinoff_prover]
pub proof fn law_rendition_settings(
    input: Seq<char>,
    output: Seq<char>,
    opts: EncodeOptions<'_>,
    i: int,
)
    requires
        opts.profile == EncodingProfile::Hls,
        0 <= i < 3,
    ensures
        ({
            let args = convert::ffmpeg_args(input, output, opts@);
            let n = text::decimal(i as nat);
            &&& given(args, "-c:v:"@ + n) == seq!["libx264"@]
            &&& given(args, "-b:v:"@ + n) == seq![pick(i, "800k"@, "2800k"@, "5000k"@)]
            &&& given(args, "-maxrate:v:"@ + n) == seq![pick(i, "900k"@, "3200k"@, "5500k"@)]
            &&& given(args, "-bufsize:v:"@ + n) == seq![pick(i, "1600k"@, "5600k"@, "10000k"@)]
            &&& given(args, "-profile:v:"@ + n) == seq![pick(i, "main"@, "main"@, "high"@)]
            &&& given(args, "-level:v:"@ + n) == seq![pick(i, "3.0"@, "3.1"@, "4.0"@)]
            &&& given(args, "-c:a:"@ + n) == seq!["aac"@]
            &&& given(args, "-ac:a:"@ + n) == seq!["2"@]
            &&& given(args, "-b:a:"@ + n) == seq![pick(i, "96k"@, "128k"@, "128k"@)]
        }),
{
    lemma_given_setting(input, output, i, 2);
    lemma_given_setting(input, output, i, 3);
    lemma_given_setting(input, output, i, 4);
    lemma_given_setting(input, output, i, 5);
    lemma_given_setting(input, output, i, 6);
    lemma_given_setting(input, output, i, 7);
    lemma_given_setting(input, output, i, 9);
    lemma_given_setting(input, output, i, 10);
    lemma_given_setting(input, output, i, 11);
}

/// What a bundle gives under a flag that concerns all renditions.
#[verifier::spinoff_prover]
proof fn lemma_given_of_all(input: Seq<char>, output: Seq<char>, j: int, f: Seq<char>)
    requires
        -2 <= j < 12,
        j >= 0 ==> f == bundle_tail(output)[2 * j],
        j == -1 ==> f == "-filter_complex"@,
        j == -2 ==> f == "-i"@,
    ensures
        given(convert::hls_args(input, output), f) == seq![
            if j >= 0 {
                bundle_tail(output)[2 * j + 1]
            } else if j == -1 {
                convert::hls_filter(profile::ladder())
            } else {
                "file:"@ + input
            },
        ],
{
    lemma_bundle_flags();
    lemma_bundle_groups(input, output);
    let a = bundle_head(input);
    let z = bundle_tail(output);
    assert(f.len() >= 2 && f != "-map"@);
    assert(!text::is_digit(f[f.len() - 1]));
    lemma_given_part_other(0, f);
    lemma_given_part_other(1, f);
    lemma_given_part_other(2, f);
    if j >= 0 {
        assert forall|k: int| 0 <= k < a.len() && k % 2 == 0 implies #[trigger] a[k] != f by {}
        lemma_given_none(a, f);
        assert forall|k: int|
            0 <= k < z.len() && k % 2 == 0 && k != 2 * j implies #[trigger] z[k] != f by {}
        lemma_given_at(z, j, f);
    } else {
        assert forall|k: int| 0 <= k < z.len() && k % 2 == 0 implies #[trigger] z[k] != f by {}
        lemma_given_none(z, f);
        let at = if j == -1 {
            1int
        } else {
            0int
        };
        assert forall|k: int|
            0 <= k < a.len() && k % 2 == 0 && k != 2 * at implies #[trigger] a[k] != f by {}
        lemma_given_at(a, at, f);
    }
    lemma_given_bundle(input, output, f);
    let e = Seq::<Seq<char>>::empty();
    let ga = given_in(a, f);
    let gz = given_in(z, f);
    assert(ga + (e + e + e) + gz =~= ga + gz);
    assert(e + gz =~= gz);
    assert(ga + e =~= ga);
}

proof fn lemma_given_part_other(i: int, f: Seq<char>)
    requires
        0 <= i < 3,
        f.len() >= 2,
        f != "-map"@,
        !text::is_digit(f[f.len() - 1]),
    ensures
        given_in(bundle_part(i), f) == Seq::<Seq<char>>::empty(),
{
    let s = bundle_part(i);
    let r = profile::ladder()[i];
    lemma_rendition_flags(i as nat, r, 2);
    assert forall|k: int| 0 <= k < s.len() && k % 2 == 0 implies #[trigger] s[k] != f by {
        let q = k / 2;
        assert(k == 2 * q);
        if q >= 2 {
            lemma_rendition_flags(i as nat, r, q);
            assert(text::decimal(i as nat) == seq![text::digit(i as nat)]);
            assert(s[k][s[k].len() - 1] == text::digit(i as nat));
            assert(text::is_digit(text::digit(i as nat)));
        }
    }
    lemma_given_none(s, f);
}

/// How a bundle is laid out: the source is its one input; every rendition has a
/// keyframe wherever a segment of six seconds begins and nowhere else by itself;
/// the segments and the playlist of a rendition lie in its own folder under the
/// output, and the playlists hold the whole film. The streams of each rendition
/// go by its name.
#[verifier::spinoff_prover]
pub proof fn law_how_a_bundle_is_laid_out(
    input: Seq<char>,
    output: Seq<char>,
    opts: EncodeOptions<'_>,
    i: int,
)
    requires
        opts.profile == EncodingProfile::Hls,
        0 <= i < 3,
    ensures
        ({
            let args = convert::ffmpeg_args(input, output, opts@);
            let folder = crate::path::joined_path(output, "%v"@);
            &&& given(args, "-i"@) == seq!["file:"@ + input]
            &&& given(args, "-preset"@) == seq!["slow"@]
            &&& given(args, "-pix_fmt"@) == seq!["yuv420p"@]
            &&& given(args, "-f"@) == seq!["hls"@]
            &&& given(args, "-hls_time"@) == seq!["6"@]
            &&& given(args, "-force_key_frames:v:"@ + text::decimal(i as nat)) == seq![
                "expr:gte(t,n_forced*6)"@,
            ]
            &&& given(args, "-sc_threshold"@) == seq!["0"@]
            &&& given(args, "-hls_playlist_type"@) == seq!["vod"@]
            &&& given(args, "-hls_list_size"@) == seq!["0"@]
            &&& given(args, "-hls_flags"@) == seq!["independent_segments"@]
            &&& given(args, "-hls_segment_type"@) == seq!["mpegts"@]
            &&& given(args, "-hls_segment_filename"@) == seq![
                crate::path::joined_path(folder, "segment_%03d.ts"@),
            ]
            &&& given(args, "-master_pl_name"@) == seq!["master.m3u8"@]
            &&& given(args, "-var_stream_map"@) == seq![
                "v:0,a:0,name:360p"@ + " v:1,a:1,name:720p"@ + " v:2,a:2,name:1080p"@,
            ]
            &&& args.last() == crate::path::joined_path(folder, "playlist.m3u8"@)
        }),
{
    lemma_given_of_all(input, output, 0, "-preset"@);
    lemma_given_of_all(input, output, 1, "-pix_fmt"@);
    lemma_given_of_all(input, output, 2, "-sc_threshold"@);
    lemma_given_of_all(input, output, 3, "-f"@);
    lemma_given_of_all(input, output, 4, "-hls_time"@);
    lemma_given_of_all(input, output, 5, "-hls_playlist_type"@);
    lemma_given_of_all(input, output, 6, "-hls_flags"@);
    lemma_given_of_all(input, output, 7, "-hls_segment_type"@);
    lemma_given_of_all(input, output, 8, "-hls_list_size"@);
    lemma_given_of_all(input, output, 9, "-hls_segment_filename"@);
    lemma_given_of_all(input, output, 10, "-master_pl_name"@);
    lemma_given_of_all(input, output, 11, "-var_stream_map"@);
    lemma_given_of_all(input, output, -2, "-i"@);
    lemma_given_setting(input, output, i, 8);
    lemma_variant_map();
    reveal_strlit("6");
    reveal_strlit("expr:gte(t,n_forced*");
    reveal_strlit(")");
    reveal_strlit("expr:gte(t,n_forced*6)");
    assert(text::decimal(6) =~= "6"@);
    assert(convert::keyframes() =~= "expr:gte(t,n_forced*6)"@);
}

proof fn lemma_variant_map()
    ensures
        convert::variant_map(profile::ladder()) == "v:0,a:0,name:360p"@ + " v:1,a:1,name:720p"@
            + " v:2,a:2,name:1080p"@,
{
    let l = profile::ladder();
    let entries = Seq::new(l.len(), |i: int| convert::variant_entry(i as nat, l[i]));
    reveal_with_fuel(text::joined, 4);
    reveal_strlit(" ");
    reveal_strlit("v:");
    reveal_strlit(",a:");
    reveal_strlit(",name:");
    reveal_strlit("360p");
    reveal_strlit("720p");
    reveal_strlit("1080p");
    reveal_strlit("v:0,a:0,name:360p");
    reveal_strlit(" v:1,a:1,name:720p");
    reveal_strlit(" v:2,a:2,name:1080p");
    assert(text::decimal(0) == seq!['0']);
    assert(text::decimal(1) == seq!['1']);
    assert(text::decimal(2) == seq!['2']);
    assert(entries[0] =~= "v:0,a:0,name:360p"@);
    assert(" "@ + entries[1] =~= " v:1,a:1,name:720p"@);
    assert(" "@ + entries[2] =~= " v:2,a:2,name:1080p"@);
    assert(entries.drop_last().drop_last() =~= seq![entries[0]]);
    assert(text::joined(entries, " "@) =~= entries[0] + " "@ + entries[1] + " "@ + entries[2]);
    assert(entries[0] + " "@ + entries[1] + " "@ + entries[2] =~= entries[0] + (" "@ + entries[1])
        + (" "@ + entries[2]));
}

/// The filter of a bundle splits the video of the source into three branches,
/// and scales each to the height of one rendition, whose name its output bears;
/// the width follows the aspect ratio and stays even.
pub proof fn law_video_is_split_and_scaled(
    input: Seq<char>,
    output: Seq<char>,
    opts: EncodeOptions<'_>,
)
    requires
        opts.profile == EncodingProfile::Hls,
    ensures
        given(convert::ffmpeg_args(input, output, opts@), "-filter_complex"@) == seq![
            "[0:v]split=3[v360pin][v720pin][v1080pin];"@
                + "[v360pin]scale=-2:360:flags=lanczos,setsar=1[v360p];"@
                + "[v720pin]scale=-2:720:flags=lanczos,setsar=1[v720p];"@
                + "[v1080pin]scale=-2:1080:flags=lanczos,setsar=1[v1080p]"@,
        ],
{
    lemma_given_of_all(input, output, -1, "-filter_complex"@);
    lemma_filter();
}

#[verifier::spinoff_prover]
proof fn lemma_filter()
    ensures
        convert::hls_filter(profile::ladder()) == "[0:v]split=3[v360pin][v720pin][v1080pin];"@
            + "[v360pin]scale=-2:360:flags=lanczos,setsar=1[v360p];"@
            + "[v720pin]scale=-2:720:flags=lanczos,setsar=1[v720p];"@
            + "[v1080pin]scale=-2:1080:flags=lanczos,setsar=1[v1080p]"@,
{
    let l = profile::ladder();
    let heads = l.map_values(|r: profile::Rendition| convert::branch_in(r));
    let branches = l.map_values(|r: profile::Rendition| convert::branch(r));
    let none = Seq::<char>::empty();
    reveal_with_fuel(text::joined, 4);
    reveal_with_fuel(text::decimal, 5);
    reveal_strlit("[0:v]split=");
    reveal_strlit("[v");
    reveal_strlit("in]");
    reveal_strlit("]");
    reveal_strlit(";");
    reveal_strlit("scale=-2:");
    reveal_strlit(":flags=lanczos,setsar=1");
    reveal_strlit("360p");
    reveal_strlit("720p");
    reveal_strlit("1080p");
    reveal_strlit("[0:v]split=3[v360pin][v720pin][v1080pin];");
    reveal_strlit("[v360pin]scale=-2:360:flags=lanczos,setsar=1[v360p];");
    reveal_strlit("[v720pin]scale=-2:720:flags=lanczos,setsar=1[v720p];");
    reveal_strlit("[v1080pin]scale=-2:1080:flags=lanczos,setsar=1[v1080p]");
    assert(text::decimal(3) =~= seq!['3']);
    assert(text::decimal(360) =~= seq!['3', '6', '0']);
    assert(text::decimal(720) =~= seq!['7', '2', '0']);
    assert(text::decimal(1080) =~= seq!['1', '0', '8', '0']);
    assert(heads.drop_last().drop_last() =~= seq![heads[0]]);
    assert(branches.drop_last().drop_last() =~= seq![branches[0]]);
    assert(text::joined(heads, none) =~= heads[0] + heads[1] + heads[2]);
    assert(text::joined(branches, ";"@) =~= branches[0] + ";"@ + branches[1] + ";"@ + branches[2]);
    assert("[0:v]split="@ + text::decimal(3) + (heads[0] + heads[1] + heads[2]) + ";"@
        =~= "[0:v]split=3[v360pin][v720pin][v1080pin];"@);
    assert(branches[0] + ";"@ =~= "[v360pin]scale=-2:360:flags=lanczos,setsar=1[v360p];"@);
    assert(branches[1] + ";"@ =~= "[v720pin]scale=-2:720:flags=lanczos,setsar=1[v720p];"@);
    assert(branches[2] =~= "[v1080pin]scale=-2:1080:flags=lanczos,setsar=1[v1080p]"@);
    let start = "[0:v]split=3[v360pin][v720pin][v1080pin];"@;
    assert(start + (branches[0] + ";"@ + branches[1] + ";"@ + branches[2]) =~= start + (branches[0]
        + ";"@) + (branches[1] + ";"@) + branches[2]);
}

// ----------------------------------------------------------- and no more --

/// Whether a flag may stand in a command for a single file.
pub open spec fn is_file_flag(f: Seq<char>) -> bool {
    ||| f == "-i"@
    ||| f == "-map"@
    ||| f == "-c:v"@
    ||| f == "-c:a"@
    ||| f == "-crf"@
    ||| f == "-cq"@
    ||| f == "-global_quality"@
    ||| f == "-qp"@
    ||| f == "-preset"@
    ||| f == "-rc"@
    ||| f == "-vf"@
    ||| f == "-hwaccel"@
    ||| f == "-hwaccel_output_format"@
    ||| f == "-vaapi_device"@
    ||| f == "-profile:v"@
    ||| f == "-level"@
    ||| f == "-pix_fmt"@
    ||| f == "-ac"@
    ||| f == "-b:a"@
    ||| f == "-movflags"@
    ||| f == "-c:s"@
    ||| f == "-c:d"@
    ||| f == "-c:t"@
    ||| text::starts_with(f, "-c:s:"@)
    ||| text::starts_with(f, "-metadata:s:s:"@)
}

spec fn all_file_flags(s: Seq<Seq<char>>) -> bool {
    forall|k: int| 0 <= k < s.len() && k % 2 == 0 ==> is_file_flag(#[trigger] s[k])
}

proof fn lemma_all_concat(a: Seq<Seq<char>>, b: Seq<Seq<char>>)
    requires
        a.len() % 2 == 0,
        b.len() % 2 == 0,
        all_file_flags(a),
        all_file_flags(b),
    ensures
        all_file_flags(a + b),
        (a + b).len() % 2 == 0,
{
    let s = a + b;
    assert forall|k: int| 0 <= k < s.len() && k % 2 == 0 implies is_file_flag(#[trigger] s[k]) by {
        if k < a.len() {
            assert(s[k] == a[k]);
        } else {
            assert(s[k] == b[k - a.len()]);
            assert((k - a.len()) % 2 == 0);
        }
    }
}

proof fn lemma_all_languages(o: Settings, k: nat)
    requires
        k <= o.subtitles.len(),
    ensures
        all_file_flags(convert::language_args(o, k)),
        convert::language_args(o, k).len() % 2 == 0,
    decreases k,
{
    if k > 0 {
        lemma_all_languages(o, (k - 1) as nat);
        let before = convert::language_args(o, (k - 1) as nat);
        match o.subtitles[k - 1].language {
            Some(lang) => {
                let flag = "-metadata:s:s:"@ + text::decimal(
                    (o.source_subtitle_codecs.len() + k - 1) as nat,
                );
                let last = seq![flag, "language="@ + lang];
                assert(flag.subrange(0, "-metadata:s:s:"@.len() as int) =~= "-metadata:s:s:"@);
                lemma_all_concat(before, last);
                assert(convert::language_args(o, k) == before + last);
            },
            None => {
                assert(convert::language_args(o, k) =~= before);
            },
        }
    }
}

#[verifier::spinoff_prover]
proof fn lemma_all_streams(o: Settings)
    ensures
        all_file_flags(convert::stream_args(o)),
{
    let s = convert::stream_args(o);
    assert forall|k: int| 0 <= k < s.len() && k % 2 == 0 implies is_file_flag(#[trigger] s[k]) by {
        if !convert::copies_video(o) && o.profile != EncodingProfile::Web {
            let filter: Seq<Seq<char>> = match convert::filter_chain(o.upscale, o.backend) {
                Some(v) => seq!["-vf"@, v],
                None => Seq::empty(),
            };
            let n = filter.len();
            if k < n {
                assert(s[k] == filter[k]);
            } else {
                let rest = s.skip(n as int);
                assert(s[k] == rest[k - n]);
                assert(rest[0] == "-c:v"@);
                assert(rest[2] == backend::quality_flag(o.backend));
                assert(rest.len() <= 10);
            }
        }
    }
}

proof fn lemma_all_subtitles(o: Settings)
    ensures
        all_file_flags(convert::subtitle_args(o)),
{
    let s = convert::subtitle_args(o);
    if convert::written_container(o) == Container::Mkv && o.source_subtitle_codecs.len() > 0 {
        lemma_subtitle_parts(o);
        let t = stream_codec_args(o);
        assert forall|k: int| 0 <= k < s.len() && k % 2 == 0 implies is_file_flag(
            #[trigger] s[k],
        ) by {
            if k < t.len() {
                let d = text::decimal((k / 2) as nat);
                assert(s[k] == "-c:s:"@ + d);
                assert(("-c:s:"@ + d).subrange(0, "-c:s:"@.len() as int) =~= "-c:s:"@);
            }
        }
    }
}

proof fn lemma_all_before_maps(input: Seq<char>, o: Settings)
    ensures
        all_file_flags(before_maps(input, o)),
        before_maps(input, o).len() % 2 == 0,
{
    let a = convert::preamble_args(o);
    let b = convert::input_args(input, o);
    lemma_given_preamble(o, "-i"@);
    lemma_given_inputs(input, o, "-i"@);
    assert(all_file_flags(a));
    assert(all_file_flags(b));
    lemma_all_concat(a, b);
}

proof fn lemma_all_maps(o: Settings)
    ensures
        all_file_flags(map_part(o)),
        map_part(o).len() % 2 == 0,
{
    let c = convert::written_container(o);
    let a = convert::source_map_args(c);
    let b = convert::drop_map_args(o);
    let d = convert::sidecar_map_args(o);
    lemma_given_maps(c, o, "-i"@);
    assert(all_file_flags(a));
    assert(all_file_flags(b));
    assert(all_file_flags(d));
    lemma_all_concat(a, b);
    lemma_all_concat(a + b, d);
}

proof fn lemma_all_after_maps(o: Settings)
    ensures
        all_file_flags(after_maps(o)),
        after_maps(o).len() % 2 == 0,
{
    lemma_streams_even(o);
    lemma_given_subtitles(o, "-i"@);
    lemma_all_languages(o, o.subtitles.len());
    lemma_all_streams(o);
    lemma_all_subtitles(o);
    lemma_all_concat(convert::stream_args(o), convert::subtitle_args(o));
    lemma_all_concat(
        convert::stream_args(o) + convert::subtitle_args(o),
        convert::language_args(o, o.subtitles.len()),
    );
}

proof fn lemma_all_middle(head: Seq<Seq<char>>, middle: Seq<Seq<char>>, last: Seq<char>)
    requires
        head.len() == 8,
        middle.len() % 2 == 0,
        all_file_flags(middle),
    ensures
        ({
            let args = head + middle + seq![last];
            &&& args.len() % 2 == 1
            &&& forall|k: int|
                8 <= k < args.len() - 1 && k % 2 == 0 ==> is_file_flag(#[trigger] args[k])
            &&& args.last() == last
        }),
{
    let args = head + middle + seq![last];
    assert forall|k: int| 8 <= k < args.len() - 1 && k % 2 == 0 implies is_file_flag(
        #[trigger] args[k],
    ) by {
        assert(args[k] == middle[k - 8]);
        assert((k - 8) % 2 == 0);
    }
}

/// A command for a single file is made of flags with a value each behind its
/// first eight arguments, it names no other flags than those that choose inputs,
/// streams, codecs, encoder settings and languages, and its output comes last.
pub proof fn law_file_commands_say_no_more(
    input: Seq<char>,
    output: Seq<char>,
    opts: EncodeOptions<'_>,
)
    requires
        opts.profile != EncodingProfile::Hls,
    ensures
        ({
            let args = convert::ffmpeg_args(input, output, opts@);
            &&& args.len() % 2 == 1
            &&& forall|k: int|
                8 <= k < args.len() - 1 && k % 2 == 0 ==> is_file_flag(#[trigger] args[k])
            &&& args.last() == "file:"@ + output
        }),
{
    let o = opts@;
    lemma_all_before_maps(input, o);
    lemma_all_maps(o);
    lemma_all_after_maps(o);
    lemma_all_concat(before_maps(input, o), map_part(o));
    lemma_all_concat(before_maps(input, o) + map_part(o), after_maps(o));
    lemma_groups(input, output, o);
    lemma_all_middle(
        convert::global_args(),
        before_maps(input, o) + map_part(o) + after_maps(o),
        "file:"@ + output,
    );
}

/// Whether a flag may stand in a command for a bundle: one that concerns the
/// whole, or one of the settings of a rendition, which end in its number.
pub open spec fn is_bundle_flag(f: Seq<char>) -> bool {
    ||| f == "-i"@
    ||| f == "-filter_complex"@
    ||| f == "-map"@
    ||| f == "-preset"@
    ||| f == "-pix_fmt"@
    ||| f == "-sc_threshold"@
    ||| f == "-f"@
    ||| f == "-hls_time"@
    ||| f == "-hls_playlist_type"@
    ||| f == "-hls_flags"@
    ||| f == "-hls_segment_type"@
    ||| f == "-hls_list_size"@
    ||| f == "-hls_segment_filename"@
    ||| f == "-master_pl_name"@
    ||| f == "-var_stream_map"@
    ||| exists|i: int| 0 <= i < 3 && #[trigger] is_setting_of(f, i)
}

/// Whether a flag is one of the settings of a rendition.
pub open spec fn is_setting_of(f: Seq<char>, i: int) -> bool {
    let n = text::decimal(i as nat);
    ||| f == "-c:v:"@ + n
    ||| f == "-b:v:"@ + n
    ||| f == "-maxrate:v:"@ + n
    ||| f == "-bufsize:v:"@ + n
    ||| f == "-profile:v:"@ + n
    ||| f == "-level:v:"@ + n
    ||| f == "-force_key_frames:v:"@ + n
    ||| f == "-c:a:"@ + n
    ||| f == "-ac:a:"@ + n
    ||| f == "-b:a:"@ + n
}

/// A command for a bundle is made of flags with a value each behind its first
/// eight arguments, and it names no other flags than those of the layout and of
/// its three renditions.
#[verifier::spinoff_prover]
pub proof fn law_bundle_commands_say_no_more(
    input: Seq<char>,
    output: Seq<char>,
    opts: EncodeOptions<'_>,
)
    requires
        opts.profile == EncodingProfile::Hls,
    ensures
        ({
            let args = convert::ffmpeg_args(input, output, opts@);
            &&& args.len() == 8 + 4 + 3 * 24 + 24 + 1
            &&& forall|k: int|
                8 <= k < args.len() - 1 && k % 2 == 0 ==> is_bundle_flag(#[trigger] args[k])
        }),
{
    let args = convert::ffmpeg_args(input, output, opts@);
    lemma_bundle_groups(input, output);
    lemma_rendition_flags(0, profile::ladder()[0], 2);
    lemma_rendition_flags(1, profile::ladder()[1], 2);
    lemma_rendition_flags(2, profile::ladder()[2], 2);
    assert forall|k: int| 8 <= k < args.len() - 1 && k % 2 == 0 implies is_bundle_flag(
        #[trigger] args[k],
    ) by {
        if k < 12 {
            assert(args[k] == bundle_head(input)[k - 8]);
        } else if k < 84 {
            let i = (k - 12) / 24;
            let at = (k - 12) % 24;
            let q = at / 2;
            assert(args[k] == bundle_part(i)[at]);
            assert(at == 2 * q);
            if q >= 2 {
                lemma_rendition_flags(i as nat, profile::ladder()[i], q);
                assert(is_setting_of(args[k], i));
            } else {
                lemma_rendition_flags(i as nat, profile::ladder()[i], 2);
            }
        } else {
            assert(args[k] == bundle_tail(output)[k - 84]);
        }
    }
}

} // verus!
