//! Keeping the machine awake during a batch.

use vstd::prelude::*;
use crate::convert::CommandLine;
use crate::text;

verus! {

/// The arguments for `systemd-inhibit`: the screensaver and suspending are
/// blocked for as long as the given program, which never ends, runs.
pub open spec fn inhibit_args(why: Seq<char>) -> Seq<Seq<char>> {
    seq![
        "--what=idle:sleep"@,
        "--who=media-convert"@,
        "--why="@ + why,
        "--mode=block"@,
        "sleep"@,
        "infinity"@,
    ]
}

/// The invocation that holds the inhibitor lock while it runs.
pub fn build_inhibit_command(why: &str) -> (r: CommandLine)
    ensures
        r.program@ == "systemd-inhibit"@,
        text::texts(r.args@) == inhibit_args(why@),
{
    let mut args: Vec<String> = Vec::new();
    let reason = text::cat("--why=", why);
    text::push_pair(&mut args, "--what=idle:sleep", "--who=media-convert");
    text::push_pair(&mut args, reason.as_str(), "--mode=block");
    text::push_pair(&mut args, "sleep", "infinity");
    assert(text::texts(args@) =~= inhibit_args(why@));
    CommandLine { program: "systemd-inhibit", args }
}

/// Both idling and sleeping are blocked, for the given reason, for as long as a
/// program runs that never ends.
pub proof fn law_what_is_blocked(why: Seq<char>)
    ensures
        inhibit_args(why).len() == 6,
        inhibit_args(why)[0] == "--what=idle:sleep"@,
        inhibit_args(why)[2] == "--why="@ + why,
        inhibit_args(why)[3] == "--mode=block"@,
        inhibit_args(why)[4] == "sleep"@ && inhibit_args(why)[5] == "infinity"@,
{
}

} // verus!
