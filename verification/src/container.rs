//! Output containers.

use vstd::prelude::*;

verus! {

/// The file format that the output streams are put into.
#[derive(Copy, Clone, Debug, PartialEq, Eq, Structural)]
pub enum Container {
    /// Matroska. Holds anything; best for archival and rich subtitle/track support.
    Mkv,
    /// MP4 (ISO BMFF). Universal playback; subtitles transcoded to mov_text,
    /// and image-based subs / attachments are dropped.
    Mp4,
}

impl Default for Container {
    fn default() -> (r: Self)
        ensures
            r == Container::Mkv,
    {
        Container::Mkv
    }
}

/// The name of a container, which is also its file extension.
pub open spec fn container_name(c: Container) -> Seq<char> {
    match c {
        Container::Mkv => "mkv"@,
        Container::Mp4 => "mp4"@,
    }
}

impl Container {
    /// The file extension, without the dot.
    pub fn extension(self) -> (r: &'static str)
        ensures
            r@ == container_name(self),
    {
        match self {
            Container::Mkv => "mkv",
            Container::Mp4 => "mp4",
        }
    }

    /// The name shown to the user.
    pub fn label(self) -> (r: &'static str)
        ensures
            r@ == container_name(self),
    {
        match self {
            Container::Mkv => "mkv",
            Container::Mp4 => "mp4",
        }
    }
}

/// A container's name is its file extension: `mkv` or `mp4`.
pub proof fn law_containers_go_by_their_extension(c: Container)
    ensures
        c == Container::Mkv ==> container_name(c) == "mkv"@,
        c == Container::Mp4 ==> container_name(c) == "mp4"@,
{
}

} // verus!
