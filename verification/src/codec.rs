//! Target video codecs.

use vstd::prelude::*;
use crate::text;

verus! {

/// The video codec to encode to.
#[derive(Copy, Clone, Debug, PartialEq, Eq, Structural)]
pub enum Codec {
    X265,
    Av1,
}

/// The name shown to the user.
pub open spec fn codec_label(c: Codec) -> Seq<char> {
    match c {
        Codec::X265 => "x265"@,
        Codec::Av1 => "av1"@,
    }
}

/// Whether `name`, a codec name as ffprobe reports it, is the target codec.
pub open spec fn is_target(c: Codec, name: Seq<char>) -> bool {
    let n = text::lower(name);
    match c {
        Codec::X265 => n == "hevc"@ || n == "h265"@,
        Codec::Av1 => n == "av1"@,
    }
}

impl Codec {
    /// Whether a source stream with this codec name is already in the target
    /// codec; capitals do not matter.
    pub fn matches_source(self, codec_name: &str) -> (r: bool)
        ensures
            r == is_target(self, codec_name@),
    {
        let n = text::to_lower(codec_name);
        match self {
            Codec::X265 => text::same(n.as_str(), "hevc") || text::same(n.as_str(), "h265"),
            Codec::Av1 => text::same(n.as_str(), "av1"),
        }
    }

    /// The name shown to the user.
    pub fn label(self) -> (r: &'static str)
        ensures
            r@ == codec_label(self),
    {
        match self {
            Codec::X265 => "x265",
            Codec::Av1 => "av1",
        }
    }
}

/// Capitals in a codec name do not matter, and no name is that of both codecs.
pub proof fn law_target_by_letters(a: Seq<char>, b: Seq<char>, c: Codec)
    requires
        text::lower(a) == text::lower(b),
    ensures
        is_target(c, a) == is_target(c, b),
        !(is_target(Codec::X265, a) && is_target(Codec::Av1, a)),
{
    reveal_strlit("hevc");
    reveal_strlit("h265");
    reveal_strlit("av1");
    assert("hevc"@.len() == 4 && "h265"@.len() == 4 && "av1"@.len() == 3);
}

/// ffprobe calls HEVC `hevc` or `h265` and AV1 `av1`, in whatever capitals, and
/// nothing else goes by these names.
pub proof fn law_names_of_the_target(name: Seq<char>)
    ensures
        is_target(Codec::X265, name) <==> (text::lower(name) == "hevc"@ || text::lower(name)
            == "h265"@),
        is_target(Codec::Av1, name) <==> text::lower(name) == "av1"@,
        codec_label(Codec::X265) == "x265"@,
        codec_label(Codec::Av1) == "av1"@,
{
}

} // verus!
