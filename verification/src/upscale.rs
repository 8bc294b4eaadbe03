//! Resizing to a fixed output resolution.

use vstd::prelude::*;
use crate::backend::Backend;
use crate::text;

verus! {

/// The output resolution.
#[derive(Copy, Clone, Debug, PartialEq, Eq, Structural)]
pub enum Upscale {
    /// Encode at the source's native resolution (no scaling).
    Native,
    /// Upscale to 1920x1080 with Lanczos resampling, preserving the source's
    /// display aspect ratio (letter/pillarboxed with black where needed).
    To1080p,
}

impl Default for Upscale {
    fn default() -> (r: Self)
        ensures
            r == Upscale::Native,
    {
        Upscale::Native
    }
}

/// The name shown to the user.
pub open spec fn upscale_label(u: Upscale) -> Seq<char> {
    match u {
        Upscale::Native => "none"@,
        Upscale::To1080p => "1080p"@,
    }
}

/// The filter chain that scales to fit `w` by `h`, pads the rest with black and
/// declares square pixels, on the CPU.
pub open spec fn cpu_chain(w: nat, h: nat) -> Seq<char> {
    "scale="@ + text::decimal(w) + ":"@ + text::decimal(h)
        + ":flags=lanczos:force_original_aspect_ratio=decrease,"@ + pad_chain(w, h)
}

/// The part of a chain that pads to `w` by `h` and declares square pixels.
pub open spec fn pad_chain(w: nat, h: nat) -> Seq<char> {
    "pad="@ + text::decimal(w) + ":"@ + text::decimal(h) + ":(ow-iw)/2:(oh-ih)/2,setsar=1"@
}

/// The same with the scaling done on a CUDA device; the frames come down for
/// the padding and go up again for the encoder.
pub open spec fn cuda_chain(w: nat, h: nat) -> Seq<char> {
    "scale_cuda="@ + text::decimal(w) + ":"@ + text::decimal(h)
        + ":force_original_aspect_ratio=decrease:interp_algo=lanczos,hwdownload,format=nv12,"@
        + pad_chain(w, h) + ",hwupload_cuda"@
}

/// The filter chain of an upscale on a backend.
pub open spec fn upscale_filter(u: Upscale, b: Backend) -> Option<Seq<char>> {
    match (u, b) {
        (Upscale::Native, _) => None,
        (Upscale::To1080p, Backend::Nvenc) => Some(cuda_chain(1920, 1080)),
        (Upscale::To1080p, _) => Some(cpu_chain(1920, 1080)),
    }
}

impl Upscale {
    /// The name shown to the user.
    pub fn label(self) -> (r: &'static str)
        ensures
            r@ == upscale_label(self),
    {
        match self {
            Upscale::Native => "none",
            Upscale::To1080p => "1080p",
        }
    }

    /// The ffmpeg filter-chain fragment that performs this upscale on the
    /// given backend, or `None` when no scaling is requested.
    ///
    /// For VAAPI the caller puts the backend's own `format=nv12,hwupload`
    /// behind it so that the padded frames land on the VAAPI device.
    pub fn filter(self, backend: Backend) -> (r: Option<String>)
        ensures
            text::opt_text(r) == upscale_filter(self, backend),
    {
        let (w, h): (u128, u128) = match self {
            Upscale::Native => {
                return None;
            },
            Upscale::To1080p => (1920, 1080),
        };
        let width = text::decimal_string(w);
        let height = text::decimal_string(h);
        let cuda = match backend {
            Backend::Nvenc => true,
            _ => false,
        };
        let mut pad = text::cat3("pad=", width.as_str(), ":");
        pad.append(height.as_str());
        pad.append(":(ow-iw)/2:(oh-ih)/2,setsar=1");
        let mut chain = text::cat3(
            if cuda {
                "scale_cuda="
            } else {
                "scale="
            },
            width.as_str(),
            ":",
        );
        chain.append(height.as_str());
        if cuda {
            chain.append(
                ":force_original_aspect_ratio=decrease:interp_algo=lanczos,hwdownload,format=nv12,",
            );
        } else {
            chain.append(":flags=lanczos:force_original_aspect_ratio=decrease,");
        }
        chain.append(pad.as_str());
        if cuda {
            chain.append(",hwupload_cuda");
        }
        Some(chain)
    }
}

// -------------------------------------------------------------------- laws --

proof fn lemma_numbers()
    ensures
        text::decimal(1920) == seq!['1', '9', '2', '0'],
        text::decimal(1080) == seq!['1', '0', '8', '0'],
{
    reveal_with_fuel(text::decimal, 5);
    assert(text::decimal(1920) =~= seq!['1', '9', '2', '0']);
    assert(text::decimal(1080) =~= seq!['1', '0', '8', '0']);
}

proof fn lemma_joined_step(parts: Seq<Seq<char>>, last: Seq<char>, sep: Seq<char>)
    requires
        parts.len() > 0,
    ensures
        text::joined(parts.push(last), sep) == text::joined(parts, sep) + sep + last,
{
    assert(parts.push(last).drop_last() =~= parts);
}

/// An upscale is a chain of steps: the picture is scaled to fit 1920 by 1080
/// with Lanczos resampling, keeping its aspect ratio, then padded to that size
/// with the picture in the middle, and then its pixels are declared square. With
/// NVENC the scaling is done on the device, and the frames come down for the
/// padding and go up again behind it.
#[verifier::spinoff_prover]
pub proof fn law_upscale_is_a_chain_of_steps(b: Backend)
    ensures
        upscale_filter(Upscale::Native, b) is None,
        upscale_filter(Upscale::To1080p, b) == Some(
            text::joined(
                if b == Backend::Nvenc {
                    seq![
                        "scale_cuda=1920:1080:force_original_aspect_ratio=decrease:interp_algo=lanczos"@,
                        "hwdownload"@,
                        "format=nv12"@,
                        "pad=1920:1080:(ow-iw)/2:(oh-ih)/2"@,
                        "setsar=1"@,
                        "hwupload_cuda"@,
                    ]
                } else {
                    seq![
                        "scale=1920:1080:flags=lanczos:force_original_aspect_ratio=decrease"@,
                        "pad=1920:1080:(ow-iw)/2:(oh-ih)/2"@,
                        "setsar=1"@,
                    ]
                },
                ","@,
            ),
        ),
{
    lemma_numbers();
    reveal_strlit(",");
    reveal_strlit(":");
    reveal_strlit("pad=");
    reveal_strlit(":(ow-iw)/2:(oh-ih)/2,setsar=1");
    reveal_strlit("pad=1920:1080:(ow-iw)/2:(oh-ih)/2");
    reveal_strlit("setsar=1");
    let pad = "pad=1920:1080:(ow-iw)/2:(oh-ih)/2"@;
    assert(pad_chain(1920, 1080) =~= pad + ","@ + "setsar=1"@);
    if b == Backend::Nvenc {
        reveal_strlit("scale_cuda=");
        reveal_strlit(
            ":force_original_aspect_ratio=decrease:interp_algo=lanczos,hwdownload,format=nv12,",
        );
        reveal_strlit(",hwupload_cuda");
        reveal_strlit(
            "scale_cuda=1920:1080:force_original_aspect_ratio=decrease:interp_algo=lanczos",
        );
        reveal_strlit("hwdownload");
        reveal_strlit("format=nv12");
        reveal_strlit("hwupload_cuda");
        let scale =
            "scale_cuda=1920:1080:force_original_aspect_ratio=decrease:interp_algo=lanczos"@;
        let s1 = seq![scale];
        let s2 = s1.push("hwdownload"@);
        let s3 = s2.push("format=nv12"@);
        let s4 = s3.push(pad);
        let s5 = s4.push("setsar=1"@);
        lemma_joined_step(s1, "hwdownload"@, ","@);
        lemma_joined_step(s2, "format=nv12"@, ","@);
        lemma_joined_step(s3, pad, ","@);
        lemma_joined_step(s4, "setsar=1"@, ","@);
        lemma_joined_step(s5, "hwupload_cuda"@, ","@);
        assert("scale_cuda="@ + text::decimal(1920) + ":"@ + text::decimal(1080)
            + ":force_original_aspect_ratio=decrease:interp_algo=lanczos,hwdownload,format=nv12,"@
            =~= scale + ","@ + "hwdownload"@ + ","@ + "format=nv12"@ + ","@);
        assert(",hwupload_cuda"@ =~= ","@ + "hwupload_cuda"@);
        assert(cuda_chain(1920, 1080) =~= text::joined(s5.push("hwupload_cuda"@), ","@));
        assert(s5.push("hwupload_cuda"@) =~= seq![
            scale,
            "hwdownload"@,
            "format=nv12"@,
            pad,
            "setsar=1"@,
            "hwupload_cuda"@,
        ]);
    } else {
        reveal_strlit("scale=");
        reveal_strlit(":flags=lanczos:force_original_aspect_ratio=decrease,");
        reveal_strlit("scale=1920:1080:flags=lanczos:force_original_aspect_ratio=decrease");
        let scale = "scale=1920:1080:flags=lanczos:force_original_aspect_ratio=decrease"@;
        let s1 = seq![scale];
        let s2 = s1.push(pad);
        lemma_joined_step(s1, pad, ","@);
        lemma_joined_step(s2, "setsar=1"@, ","@);
        assert("scale="@ + text::decimal(1920) + ":"@ + text::decimal(1080)
            + ":flags=lanczos:force_original_aspect_ratio=decrease,"@ =~= scale + ","@);
        assert(cpu_chain(1920, 1080) =~= text::joined(s2.push("setsar=1"@), ","@));
        assert(s2.push("setsar=1"@) =~= seq![scale, pad, "setsar=1"@]);
    }
}

/// Whatever the backend, the first step of an upscale scales to 1920 by 1080 and
/// keeps the aspect ratio, and the step that pads to 1920 by 1080 begins somewhere
/// behind it.
#[verifier::spinoff_prover]
pub proof fn law_scaling_comes_before_padding(u: Upscale, b: Backend)
    requires
        upscale_filter(u, b) is Some,
    ensures
        ({
            let f = upscale_filter(u, b)->0;
            let end = text::next_at(f, ',', 0);
            &&& text::starts_with(
                f.take(end),
                if b == Backend::Nvenc {
                    "scale_cuda=1920:1080:"@
                } else {
                    "scale=1920:1080:"@
                },
            )
            &&& text::occurs_in("force_original_aspect_ratio=decrease"@, f.take(end))
            &&& text::occurs_in(",pad=1920:1080:(ow-iw)/2:(oh-ih)/2,"@, f.skip(end))
        }),
{
    lemma_numbers();
    reveal_strlit(",");
    reveal_strlit(":");
    reveal_strlit("pad=");
    reveal_strlit(":(ow-iw)/2:(oh-ih)/2,setsar=1");
    reveal_strlit(",pad=1920:1080:(ow-iw)/2:(oh-ih)/2,");
    reveal_strlit("force_original_aspect_ratio=decrease");
    let f = upscale_filter(u, b)->0;
    let tail = ",pad=1920:1080:(ow-iw)/2:(oh-ih)/2,"@;
    let keep = "force_original_aspect_ratio=decrease"@;
    if b == Backend::Nvenc {
        reveal_strlit("scale_cuda=");
        reveal_strlit(
            ":force_original_aspect_ratio=decrease:interp_algo=lanczos,hwdownload,format=nv12,",
        );
        reveal_strlit(",hwupload_cuda");
        reveal_strlit("scale_cuda=1920:1080:");
        text::lemma_next_at_is(f, ',', 0, 77);
        assert(f.take(77).subrange(0, 21) =~= "scale_cuda=1920:1080:"@);
        assert(f.take(77).subrange(21, 57) =~= keep);
        assert(text::occurs_at(keep, f.take(77), 21));
        assert(f.skip(77).subrange(23, 58) =~= tail);
        assert(text::occurs_at(tail, f.skip(77), 23));
    } else {
        reveal_strlit("scale=");
        reveal_strlit(":flags=lanczos:force_original_aspect_ratio=decrease,");
        reveal_strlit("scale=1920:1080:");
        text::lemma_next_at_is(f, ',', 0, 66);
        assert(f.take(66).subrange(0, 16) =~= "scale=1920:1080:"@);
        assert(f.take(66).subrange(30, 66) =~= keep);
        assert(text::occurs_at(keep, f.take(66), 30));
        assert(f.skip(66).subrange(0, tail.len() as int) =~= tail);
        assert(text::occurs_at(tail, f.skip(66), 0));
    }
}

} // verus!
